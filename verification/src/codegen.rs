use vstd::prelude::*;

use crate::ops::Op;

verus! {

/// Largest instruction count the generator accepts. Keeps every conditional
/// branch displacement inside the 19-bit signed immediate of the AArch64
/// `CBZ`/`CBNZ` encodings: the code for one instruction is at most 28 bytes,
/// so every byte offset stays below `28 * 30000 + 4 < 2^20`.
pub const MAX_OPS: usize = 30000;

/// Bytes of machine code emitted for one instruction.
pub open spec fn op_size(op: Op) -> int {
    match op {
        Op::Inc => 12,
        Op::Dec => 12,
        Op::Left => 4,
        Op::Right => 4,
        Op::Output => 28,
        Op::Input => 28,
        Op::JumpIfZero(_) => 8,
        Op::JumpIfNonZero(_) => 8,
    }
}

/// Byte offset of instruction `k`'s code inside the generated buffer: the
/// sum of the sizes of all earlier instructions.
pub open spec fn offset_of(ops: Seq<Op>, k: int) -> int
    decreases k,
{
    if k <= 0 {
        0
    } else {
        offset_of(ops, k - 1) + op_size(ops[k - 1])
    }
}

/// `LDRB W1, [X0]` — load the current cell into the scratch register.
pub open spec fn ldrb_bytes() -> Seq<u8> {
    seq![0x01u8, 0x00u8, 0x40u8, 0x39u8]
}

/// `LDRB W1, [X0]; ADD W1, W1, #1; STRB W1, [X0]` — wrapping cell increment.
pub open spec fn inc_bytes() -> Seq<u8> {
    seq![
        0x01u8,
        0x00u8,
        0x40u8,
        0x39u8,
        0x21u8,
        0x04u8,
        0x00u8,
        0x11u8,
        0x01u8,
        0x00u8,
        0x00u8,
        0x39u8,
    ]
}

/// `LDRB W1, [X0]; SUB W1, W1, #1; STRB W1, [X0]` — wrapping cell decrement.
pub open spec fn dec_bytes() -> Seq<u8> {
    seq![
        0x01u8,
        0x00u8,
        0x40u8,
        0x39u8,
        0x21u8,
        0x04u8,
        0x00u8,
        0x51u8,
        0x01u8,
        0x00u8,
        0x00u8,
        0x39u8,
    ]
}

/// `SUB X0, X0, #1` — move the data pointer one cell left.
pub open spec fn left_bytes() -> Seq<u8> {
    seq![0x00u8, 0x04u8, 0x00u8, 0xD1u8]
}

/// `ADD X0, X0, #1` — move the data pointer one cell right.
pub open spec fn right_bytes() -> Seq<u8> {
    seq![0x00u8, 0x04u8, 0x00u8, 0x91u8]
}

/// Write-one-byte system call: save the data pointer in `X3`, set up file
/// descriptor 1, the cell address and length 1, issue the call, and restore
/// the data pointer afterwards.
pub open spec fn output_bytes() -> Seq<u8> {
    seq![
        0xE3u8, 0x03u8, 0x00u8, 0xAAu8,  // MOV X3, X0
        0x20u8, 0x00u8, 0x80u8, 0xD2u8,  // MOVZ X0, #1 (stdout)
        0xE1u8, 0x03u8, 0x03u8, 0xAAu8,  // MOV X1, X3
        0x22u8, 0x00u8, 0x80u8, 0xD2u8,  // MOVZ X2, #1 (one byte)
        0x90u8, 0x00u8, 0x80u8, 0xD2u8,  // MOVZ X16, #4 (write)
        0x01u8, 0x00u8, 0x00u8, 0xD4u8,  // SVC #0
        0xE0u8, 0x03u8, 0x03u8, 0xAAu8,  // MOV X0, X3
    ]
}

/// Read-one-byte system call, symmetric to `output_bytes`: file descriptor 0
/// and the read system call number instead.
pub open spec fn input_bytes() -> Seq<u8> {
    seq![
        0xE3u8, 0x03u8, 0x00u8, 0xAAu8,  // MOV X3, X0
        0x00u8, 0x00u8, 0x80u8, 0xD2u8,  // MOVZ X0, #0 (stdin)
        0xE1u8, 0x03u8, 0x03u8, 0xAAu8,  // MOV X1, X3
        0x22u8, 0x00u8, 0x80u8, 0xD2u8,  // MOVZ X2, #1 (one byte)
        0x70u8, 0x00u8, 0x80u8, 0xD2u8,  // MOVZ X16, #3 (read)
        0x01u8, 0x00u8, 0x00u8, 0xD4u8,  // SVC #0
        0xE0u8, 0x03u8, 0x03u8, 0xAAu8,  // MOV X0, X3
    ]
}

/// `RET` — the unconditional terminator of every generated buffer.
pub open spec fn ret_bytes() -> Seq<u8> {
    seq![0xC0u8, 0x03u8, 0x5Fu8, 0xD6u8]
}

/// The 19-bit branch immediate for a jump from instruction `i` to the code of
/// instruction `t`: the displacement in words from the `CBZ`/`CBNZ` itself
/// (which sits 4 bytes into instruction `i`'s code), in two's complement.
/// Adding `0x200000` (a multiple of `4 * 2^19`) keeps the dividend positive
/// without changing the encoded value.
pub open spec fn branch_imm(ops: Seq<Op>, i: int, t: int) -> int {
    ((offset_of(ops, t) + 0x200000 - (offset_of(ops, i) + 4)) / 4) % 0x80000
}

/// Little-endian bytes of a `CBZ W1` (`opcode` 0x34) or `CBNZ W1` (0x35)
/// instruction with the given 19-bit immediate in bits 5 through 23.
pub open spec fn cond_branch_bytes(opcode: u8, imm: int) -> Seq<u8> {
    seq![
        (1 + 32 * (imm % 8)) as u8,
        ((imm / 8) % 256) as u8,
        ((imm / 2048) % 256) as u8,
        opcode,
    ]
}

/// The machine code for instruction `i` of the sequence.
pub open spec fn op_code(ops: Seq<Op>, i: int) -> Seq<u8> {
    match ops[i] {
        Op::Inc => inc_bytes(),
        Op::Dec => dec_bytes(),
        Op::Left => left_bytes(),
        Op::Right => right_bytes(),
        Op::Output => output_bytes(),
        Op::Input => input_bytes(),
        Op::JumpIfZero(t) => ldrb_bytes() + cond_branch_bytes(0x34, branch_imm(ops, i, t as int)),
        Op::JumpIfNonZero(t) => ldrb_bytes() + cond_branch_bytes(
            0x35,
            branch_imm(ops, i, t as int),
        ),
    }
}

/// The code for the first `k` instructions, concatenated in order.
pub open spec fn gen_prefix(ops: Seq<Op>, k: int) -> Seq<u8>
    decreases k,
{
    if k <= 0 {
        Seq::empty()
    } else {
        gen_prefix(ops, k - 1) + op_code(ops, k - 1)
    }
}

/// The whole generated buffer: every instruction's code in order, terminated
/// by a `RET`.
pub open spec fn gen_code(ops: Seq<Op>) -> Seq<u8> {
    gen_prefix(ops, ops.len() as int) + ret_bytes()
}

/// Every bracket target is an index into the sequence (one past the last
/// instruction included).
pub open spec fn target_ok(ops: Seq<Op>, i: int) -> bool {
    match ops[i] {
        Op::JumpIfZero(t) => t <= ops.len(),
        Op::JumpIfNonZero(t) => t <= ops.len(),
        _ => true,
    }
}

/// All bracket targets are in range.
pub open spec fn targets_in_range(ops: Seq<Op>) -> bool {
    forall|i: int| 0 <= i < ops.len() ==> #[trigger] target_ok(ops, i)
}

/// The size table is faithful: the code for the first `k` instructions is
/// exactly `offset_of(ops, k)` bytes long, so instruction `k`'s code starts
/// at that byte offset of the generated buffer.
pub proof fn lemma_code_layout(ops: Seq<Op>, k: int)
    requires
        0 <= k <= ops.len(),
    ensures
        gen_prefix(ops, k).len() == offset_of(ops, k),
    decreases k,
{
    if k > 0 {
        lemma_code_layout(ops, k - 1);
    }
}

/// The generated buffer is the size table's total plus the terminating `RET`.
pub proof fn lemma_code_size(ops: Seq<Op>)
    ensures
        gen_code(ops).len() == offset_of(ops, ops.len() as int) + 4,
{
    lemma_code_layout(ops, ops.len() as int);
}

/// Parser output always satisfies the generator's range condition: matched
/// bracket targets never point outside the instruction sequence, so any
/// parsed program within the size bound compiles.
pub proof fn lemma_well_matched_targets_in_range(ops: Seq<Op>)
    requires
        crate::parser::well_matched(ops),
    ensures
        targets_in_range(ops),
{
    assert forall|i: int| 0 <= i < ops.len() implies #[trigger] target_ok(ops, i) by {
        match ops[i] {
            Op::JumpIfZero(t) => {
                assert(ops[i] matches Op::JumpIfZero(t2) && i + 2 <= t2 <= ops.len());
            },
            Op::JumpIfNonZero(u) => {
                assert(ops[i] matches Op::JumpIfNonZero(u2) && 1 <= u2 <= i);
            },
            _ => {},
        }
    }
}

/// Code generation is deterministic: two runs over the same instruction
/// sequence produce identical machine code, so the two buffers are
/// interchangeable wherever they are mapped and invoked.
pub proof fn lemma_codegen_deterministic(ops1: Seq<Op>, ops2: Seq<Op>)
    requires
        ops1 == ops2,
    ensures
        gen_code(ops1) == gen_code(ops2),
{
}

/// Appends one encoded machine instruction to the buffer.
fn push4(code: &mut Vec<u8>, b0: u8, b1: u8, b2: u8, b3: u8)
    ensures
        final(code)@ == old(code)@ + seq![b0, b1, b2, b3],
{
    code.push(b0);
    code.push(b1);
    code.push(b2);
    code.push(b3);
    proof {
        assert(code@ =~= old(code)@ + seq![b0, b1, b2, b3]);
    }
}

/// Translates an instruction sequence into one flat AArch64 machine-code
/// buffer.
pub struct JitCompiler {
    pub ops: Vec<Op>,
}

impl JitCompiler {
    /// A generator over the given instruction sequence.
    pub fn new(ops: Vec<Op>) -> (r: JitCompiler)
        ensures
            r.ops@ == ops@,
    {
        JitCompiler { ops }
    }

    /// Generates the machine-code buffer: each instruction's fixed or
    /// branch-patched encoding in order, terminated by `RET`. Returns `None`
    /// exactly when the sequence is longer than `MAX_OPS` (the branch
    /// immediates could not hold the displacements) or a bracket target lies
    /// outside the sequence; parser output within the size bound always
    /// compiles.
    ///
    /// Calling convention of the produced code: the tape base address arrives
    /// in `X0` and doubles as the data pointer; `W1` is the scratch register
    /// for cell loads and stores; `X3` preserves the data pointer across
    /// system calls. The caller must supply a tape large enough for the
    /// program; pointer motion outside it is not guarded.
    pub fn compile(&self) -> (r: Option<Vec<u8>>)
        ensures
            r is Some <==> (self.ops@.len() <= MAX_OPS && targets_in_range(self.ops@)),
            r matches Some(code) ==> code@ == gen_code(self.ops@),
    {
        let n = self.ops.len();
        if n > MAX_OPS {
            return None;
        }
        // First pass: the size table, as byte offsets of each instruction's
        // code; rejects a bracket target outside the sequence.
        let mut offsets: Vec<usize> = Vec::new();
        offsets.push(0);
        let mut k: usize = 0;
        while k < n
            invariant
                n == self.ops@.len(),
                n <= MAX_OPS,
                k <= n,
                offsets@.len() == k + 1,
                forall|j: int| 0 <= j <= k ==> #[trigger] offsets@[j] == offset_of(self.ops@, j),
                forall|j: int| 0 <= j <= k ==> #[trigger] offsets@[j] <= 28 * j,
                forall|i: int| 0 <= i < k ==> #[trigger] target_ok(self.ops@, i),
            decreases n - k,
        {
            let sz: usize = match self.ops[k] {
                Op::Inc => 12,
                Op::Dec => 12,
                Op::Left => 4,
                Op::Right => 4,
                Op::Output => 28,
                Op::Input => 28,
                Op::JumpIfZero(t) => {
                    if t > n {
                        proof {
                            assert(!target_ok(self.ops@, k as int));
                        }
                        return None;
                    }
                    8
                },
                Op::JumpIfNonZero(t) => {
                    if t > n {
                        proof {
                            assert(!target_ok(self.ops@, k as int));
                        }
                        return None;
                    }
                    8
                },
            };
            let prev = offsets[k];
            offsets.push(prev + sz);
            k = k + 1;
        }
        // Second pass: emit the code, resolving each branch through the size
        // table, exactly as the parser resolved bracket indices.
        let mut code: Vec<u8> = Vec::new();
        let mut i: usize = 0;
        while i < n
            invariant
                n == self.ops@.len(),
                n <= MAX_OPS,
                i <= n,
                offsets@.len() == n + 1,
                forall|j: int| 0 <= j <= n ==> #[trigger] offsets@[j] == offset_of(self.ops@, j),
                forall|j: int| 0 <= j <= n ==> #[trigger] offsets@[j] <= 28 * j,
                targets_in_range(self.ops@),
                code@ == gen_prefix(self.ops@, i as int),
            decreases n - i,
        {
            match self.ops[i] {
                Op::Inc => {
                    push4(&mut code, 0x01, 0x00, 0x40, 0x39);
                    push4(&mut code, 0x21, 0x04, 0x00, 0x11);
                    push4(&mut code, 0x01, 0x00, 0x00, 0x39);
                    proof {
                        assert(code@ =~= gen_prefix(self.ops@, i + 1));
                    }
                },
                Op::Dec => {
                    push4(&mut code, 0x01, 0x00, 0x40, 0x39);
                    push4(&mut code, 0x21, 0x04, 0x00, 0x51);
                    push4(&mut code, 0x01, 0x00, 0x00, 0x39);
                    proof {
                        assert(code@ =~= gen_prefix(self.ops@, i + 1));
                    }
                },
                Op::Left => {
                    push4(&mut code, 0x00, 0x04, 0x00, 0xD1);
                    proof {
                        assert(code@ =~= gen_prefix(self.ops@, i + 1));
                    }
                },
                Op::Right => {
                    push4(&mut code, 0x00, 0x04, 0x00, 0x91);
                    proof {
                        assert(code@ =~= gen_prefix(self.ops@, i + 1));
                    }
                },
                Op::Output => {
                    push4(&mut code, 0xE3, 0x03, 0x00, 0xAA);
                    push4(&mut code, 0x20, 0x00, 0x80, 0xD2);
                    push4(&mut code, 0xE1, 0x03, 0x03, 0xAA);
                    push4(&mut code, 0x22, 0x00, 0x80, 0xD2);
                    push4(&mut code, 0x90, 0x00, 0x80, 0xD2);
                    push4(&mut code, 0x01, 0x00, 0x00, 0xD4);
                    push4(&mut code, 0xE0, 0x03, 0x03, 0xAA);
                    proof {
                        assert(code@ =~= gen_prefix(self.ops@, i + 1));
                    }
                },
                Op::Input => {
                    push4(&mut code, 0xE3, 0x03, 0x00, 0xAA);
                    push4(&mut code, 0x00, 0x00, 0x80, 0xD2);
                    push4(&mut code, 0xE1, 0x03, 0x03, 0xAA);
                    push4(&mut code, 0x22, 0x00, 0x80, 0xD2);
                    push4(&mut code, 0x70, 0x00, 0x80, 0xD2);
                    push4(&mut code, 0x01, 0x00, 0x00, 0xD4);
                    push4(&mut code, 0xE0, 0x03, 0x03, 0xAA);
                    proof {
                        assert(code@ =~= gen_prefix(self.ops@, i + 1));
                    }
                },
                Op::JumpIfZero(t) => {
                    proof {
                        assert(target_ok(self.ops@, i as int));
                    }
                    push4(&mut code, 0x01, 0x00, 0x40, 0x39);
                    let base = offsets[t] + 0x200000 - (offsets[i] + 4);
                    let imm = (base / 4) % 0x80000;
                    let b0 = (1 + 32 * (imm % 8)) as u8;
                    let b1 = ((imm / 8) % 256) as u8;
                    let b2 = ((imm / 2048) % 256) as u8;
                    push4(&mut code, b0, b1, b2, 0x34);
                    proof {
                        assert(imm == branch_imm(self.ops@, i as int, t as int));
                        assert(code@ =~= gen_prefix(self.ops@, i + 1));
                    }
                },
                Op::JumpIfNonZero(t) => {
                    proof {
                        assert(target_ok(self.ops@, i as int));
                    }
                    push4(&mut code, 0x01, 0x00, 0x40, 0x39);
                    let base = offsets[t] + 0x200000 - (offsets[i] + 4);
                    let imm = (base / 4) % 0x80000;
                    let b0 = (1 + 32 * (imm % 8)) as u8;
                    let b1 = ((imm / 8) % 256) as u8;
                    let b2 = ((imm / 2048) % 256) as u8;
                    push4(&mut code, b0, b1, b2, 0x35);
                    proof {
                        assert(imm == branch_imm(self.ops@, i as int, t as int));
                        assert(code@ =~= gen_prefix(self.ops@, i + 1));
                    }
                },
            }
            i = i + 1;
        }
        push4(&mut code, 0xC0, 0x03, 0x5F, 0xD6);
        proof {
            assert(code@ =~= gen_code(self.ops@));
        }
        Some(code)
    }
}

} // verus!
