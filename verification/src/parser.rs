use vstd::prelude::*;

use crate::ops::{BfError, Op};

verus! {

/// State of the left-to-right scan over the source text: the instructions
/// emitted so far, and the indices of the `[` instructions whose jump targets
/// are still waiting for their matching `]`.
pub struct ScanState {
    pub ops: Seq<Op>,
    pub pending: Seq<usize>,
}

/// How one source byte transforms the scan state. Non-instruction bytes are
/// ignored. A `]` with nothing pending has no match: the scan fails.
pub open spec fn scan_byte(st: ScanState, c: u8) -> Option<ScanState> {
    if c == 43 {
        // '+'
        Some(ScanState { ops: st.ops.push(Op::Inc), pending: st.pending })
    } else if c == 45 {
        // '-'
        Some(ScanState { ops: st.ops.push(Op::Dec), pending: st.pending })
    } else if c == 60 {
        // '<'
        Some(ScanState { ops: st.ops.push(Op::Left), pending: st.pending })
    } else if c == 62 {
        // '>'
        Some(ScanState { ops: st.ops.push(Op::Right), pending: st.pending })
    } else if c == 46 {
        // '.'
        Some(ScanState { ops: st.ops.push(Op::Output), pending: st.pending })
    } else if c == 44 {
        // ','
        Some(ScanState { ops: st.ops.push(Op::Input), pending: st.pending })
    } else if c == 91 {
        // '[': emit a placeholder whose target is patched at the matching ']'
        Some(
            ScanState {
                ops: st.ops.push(Op::JumpIfZero(0)),
                pending: st.pending.push(st.ops.len() as usize),
            },
        )
    } else if c == 93 {
        // ']'
        if st.pending.len() == 0 {
            None
        } else {
            let a = st.pending.last() as int;
            let close = st.ops.len() as usize;
            Some(
                ScanState {
                    ops: st.ops.update(a, Op::JumpIfZero((close + 1) as usize)).push(
                        Op::JumpIfNonZero((a + 1) as usize),
                    ),
                    pending: st.pending.drop_last(),
                },
            )
        }
    } else {
        Some(st)
    }
}

/// The scan state after the first `n` source bytes, or `None` once a `]`
/// without a match has been seen.
pub open spec fn scan(src: Seq<u8>, n: int) -> Option<ScanState>
    decreases n,
{
    if n <= 0 {
        Some(ScanState { ops: Seq::empty(), pending: Seq::empty() })
    } else {
        match scan(src, n - 1) {
            Option::None => Option::None,
            Option::Some(st) => scan_byte(st, src[n - 1]),
        }
    }
}

/// A source text is accepted exactly when the whole scan succeeds and no `[`
/// is left open at the end.
pub open spec fn balanced(src: Seq<u8>) -> bool {
    &&& scan(src, src.len() as int) is Some
    &&& scan(src, src.len() as int).unwrap().pending.len() == 0
}

/// The instruction sequence a balanced source text denotes.
pub open spec fn parsed_ops(src: Seq<u8>) -> Seq<Op> {
    scan(src, src.len() as int).unwrap().ops
}

/// The bracket targets correspond bijectively: a `[` at index `i` with target
/// `t` has its matching `]` at `t - 1`, which points back just past the `[`;
/// and every `]` points back at a `[` that points just past it.
pub open spec fn well_matched(ops: Seq<Op>) -> bool {
    &&& forall|i: int|
        0 <= i < ops.len() ==> (#[trigger] ops[i] matches Op::JumpIfZero(t) ==> {
            &&& i + 2 <= t <= ops.len()
            &&& ops[t - 1] == Op::JumpIfNonZero((i + 1) as usize)
        })
    &&& forall|j: int|
        0 <= j < ops.len() ==> (#[trigger] ops[j] matches Op::JumpIfNonZero(u) ==> {
            &&& 1 <= u <= j
            &&& ops[u - 1] == Op::JumpIfZero((j + 1) as usize)
        })
}

/// Once the scan has failed it stays failed for every longer prefix.
proof fn lemma_scan_none_persists(src: Seq<u8>, m: int, n: int)
    requires
        0 <= m <= n,
        scan(src, m) is None,
    ensures
        scan(src, n) is None,
    decreases n - m,
{
    if m < n {
        lemma_scan_none_persists(src, m, n - 1);
    }
}

/// Pending opens at positions a scan state's invariant speaks of: every
/// matched bracket pair already corresponds, every pending `[` still carries
/// the placeholder target, and the pending indices increase strictly.
pub open spec fn scan_invariant(st: ScanState) -> bool {
    &&& forall|i: int|
        0 <= i < st.ops.len() ==> (#[trigger] st.ops[i] matches Op::JumpIfZero(t) ==> {
            ||| (st.pending.contains(i as usize) && t == 0)
            ||| (i + 2 <= t <= st.ops.len() && st.ops[t - 1] == Op::JumpIfNonZero(
                (i + 1) as usize,
            ))
        })
    &&& forall|j: int|
        0 <= j < st.ops.len() ==> (#[trigger] st.ops[j] matches Op::JumpIfNonZero(u) ==> {
            &&& 1 <= u <= j
            &&& st.ops[u - 1] == Op::JumpIfZero((j + 1) as usize)
        })
    &&& forall|p: int|
        0 <= p < st.pending.len() ==> {
            &&& #[trigger] st.pending[p] < st.ops.len()
            &&& st.ops[st.pending[p] as int] == Op::JumpIfZero(0)
        }
    &&& forall|p: int, q: int|
        0 <= p < q < st.pending.len() ==> #[trigger] st.pending[p] < #[trigger] st.pending[q]
}

/// Appending an instruction that is not a bracket leaves every claim of the
/// invariant in place.
proof fn lemma_push_plain(st: ScanState, x: Op)
    requires
        scan_invariant(st),
        !(x is JumpIfZero),
        !(x is JumpIfNonZero),
    ensures
        scan_invariant(ScanState { ops: st.ops.push(x), pending: st.pending }),
{
    let st2 = ScanState { ops: st.ops.push(x), pending: st.pending };
    assert forall|i: int|
        0 <= i < st2.ops.len() implies (#[trigger] st2.ops[i] matches Op::JumpIfZero(t) ==> {
        ||| (st2.pending.contains(i as usize) && t == 0)
        ||| (i + 2 <= t <= st2.ops.len() && st2.ops[t - 1] == Op::JumpIfNonZero((i + 1) as usize))
    }) by {
        if i < st.ops.len() {
            assert(st2.ops[i] == st.ops[i]);
            match st.ops[i] {
                Op::JumpIfZero(t) => {
                    if !(st.pending.contains(i as usize) && t == 0) {
                        assert(st2.ops[t - 1] == st.ops[t - 1]);
                    }
                },
                _ => {},
            }
        }
    }
    assert forall|j: int|
        0 <= j < st2.ops.len() implies (#[trigger] st2.ops[j] matches Op::JumpIfNonZero(u) ==> {
        &&& 1 <= u <= j
        &&& st2.ops[u - 1] == Op::JumpIfZero((j + 1) as usize)
    }) by {
        if j < st.ops.len() {
            assert(st2.ops[j] == st.ops[j]);
            match st.ops[j] {
                Op::JumpIfNonZero(u) => {
                    assert(st2.ops[u - 1] == st.ops[u - 1]);
                },
                _ => {},
            }
        }
    }
    assert forall|p: int| 0 <= p < st2.pending.len() implies {
        &&& #[trigger] st2.pending[p] < st2.ops.len()
        &&& st2.ops[st2.pending[p] as int] == Op::JumpIfZero(0)
    } by {
        assert(st.pending[p] < st.ops.len());
        assert(st2.ops[st.pending[p] as int] == st.ops[st.pending[p] as int]);
    }
}

/// Appending a placeholder `[` and recording its index keeps the invariant:
/// the new entry is pending, carries target zero, and tops the stack.
proof fn lemma_push_open(st: ScanState)
    requires
        scan_invariant(st),
        st.ops.len() < usize::MAX,
    ensures
        scan_invariant(
            ScanState {
                ops: st.ops.push(Op::JumpIfZero(0)),
                pending: st.pending.push(st.ops.len() as usize),
            },
        ),
{
    let new_ix = st.ops.len() as usize;
    let st2 = ScanState {
        ops: st.ops.push(Op::JumpIfZero(0)),
        pending: st.pending.push(new_ix),
    };
    assert forall|i: int|
        0 <= i < st2.ops.len() implies (#[trigger] st2.ops[i] matches Op::JumpIfZero(t) ==> {
        ||| (st2.pending.contains(i as usize) && t == 0)
        ||| (i + 2 <= t <= st2.ops.len() && st2.ops[t - 1] == Op::JumpIfNonZero((i + 1) as usize))
    }) by {
        if i < st.ops.len() {
            assert(st2.ops[i] == st.ops[i]);
            match st.ops[i] {
                Op::JumpIfZero(t) => {
                    if st.pending.contains(i as usize) && t == 0 {
                        let p = choose|p: int|
                            0 <= p < st.pending.len() && st.pending[p] == i as usize;
                        assert(st2.pending[p] == i as usize);
                        assert(st2.pending.contains(i as usize));
                    } else {
                        assert(st2.ops[t - 1] == st.ops[t - 1]);
                    }
                },
                _ => {},
            }
        } else {
            assert(st2.ops[i] == Op::JumpIfZero(0));
            assert(st2.pending[st2.pending.len() - 1] == i as usize);
            assert(st2.pending.contains(i as usize));
        }
    }
    assert forall|j: int|
        0 <= j < st2.ops.len() implies (#[trigger] st2.ops[j] matches Op::JumpIfNonZero(u) ==> {
        &&& 1 <= u <= j
        &&& st2.ops[u - 1] == Op::JumpIfZero((j + 1) as usize)
    }) by {
        if j < st.ops.len() {
            assert(st2.ops[j] == st.ops[j]);
            match st.ops[j] {
                Op::JumpIfNonZero(u) => {
                    assert(st2.ops[u - 1] == st.ops[u - 1]);
                },
                _ => {},
            }
        }
    }
    assert forall|p: int| 0 <= p < st2.pending.len() implies {
        &&& #[trigger] st2.pending[p] < st2.ops.len()
        &&& st2.ops[st2.pending[p] as int] == Op::JumpIfZero(0)
    } by {
        if p < st.pending.len() {
            assert(st2.pending[p] == st.pending[p]);
            assert(st.pending[p] < st.ops.len());
            assert(st2.ops[st.pending[p] as int] == st.ops[st.pending[p] as int]);
        } else {
            assert(st2.pending[p] == new_ix);
            assert(st2.ops[new_ix as int] == Op::JumpIfZero(0));
        }
    }
    assert forall|p: int, q: int|
        0 <= p < q < st2.pending.len() implies #[trigger] st2.pending[p]
        < #[trigger] st2.pending[q] by {
        if q < st.pending.len() {
            assert(st2.pending[p] == st.pending[p]);
            assert(st2.pending[q] == st.pending[q]);
        } else {
            assert(st2.pending[q] == new_ix);
            assert(st2.pending[p] == st.pending[p]);
            assert(st.pending[p] < st.ops.len());
        }
    }
}

/// One scan step preserves the invariant.
proof fn lemma_scan_byte_invariant(st: ScanState, c: u8)
    requires
        scan_invariant(st),
        scan_byte(st, c) is Some,
        st.ops.len() < usize::MAX,
    ensures
        scan_invariant(scan_byte(st, c).unwrap()),
{
    let st2 = scan_byte(st, c).unwrap();
    if c == 43 {
        lemma_push_plain(st, Op::Inc);
    } else if c == 45 {
        lemma_push_plain(st, Op::Dec);
    } else if c == 60 {
        lemma_push_plain(st, Op::Left);
    } else if c == 62 {
        lemma_push_plain(st, Op::Right);
    } else if c == 46 {
        lemma_push_plain(st, Op::Output);
    } else if c == 44 {
        lemma_push_plain(st, Op::Input);
    } else if c == 91 {
        lemma_push_open(st);
    } else if c == 93 && st.pending.len() > 0 {
        let a = st.pending.last() as int;
        let j = st.ops.len() as int;
        assert(st.ops[a] == Op::JumpIfZero(0));
        assert forall|i: int|
            0 <= i < st2.ops.len() implies (#[trigger] st2.ops[i] matches Op::JumpIfZero(t) ==> {
            ||| (st2.pending.contains(i as usize) && t == 0)
            ||| (i + 2 <= t <= st2.ops.len() && st2.ops[t - 1] == Op::JumpIfNonZero(
                (i + 1) as usize,
            ))
        }) by {
            match st2.ops[i] {
                Op::JumpIfZero(t) => {
                    if i == a {
                        // the freshly patched open: its close sits right at index j
                        assert(st.pending[st.pending.len() - 1] < st.ops.len());
                        assert(a < j);
                        assert(t == j + 1);
                        assert(st2.ops[j] == Op::JumpIfNonZero((a + 1) as usize));
                    } else if i < j {
                        assert(st.ops[i] == st2.ops[i]);
                        if st.pending.contains(i as usize) && t == 0 {
                            // still pending: it is not the popped entry, which was the last
                            let p = choose|p: int|
                                0 <= p < st.pending.len() && st.pending[p] == i as usize;
                            assert(st.pending[st.pending.len() - 1] == a as usize);
                            assert(i as usize != a as usize);
                            assert(p < st.pending.len() - 1);
                            assert(st2.pending[p] == i as usize);
                            assert(st2.pending.contains(i as usize));
                        } else {
                            // already matched; its close is below j and untouched,
                            // and the patched slot a held a placeholder, not a close
                            assert(st.ops[t - 1] == Op::JumpIfNonZero((i + 1) as usize));
                            assert(t - 1 != a);
                            assert(st2.ops[t - 1] == Op::JumpIfNonZero((i + 1) as usize));
                        }
                    }
                },
                _ => {},
            }
        }
        assert forall|jj: int|
            0 <= jj < st2.ops.len() implies (#[trigger] st2.ops[jj] matches Op::JumpIfNonZero(u)
            ==> {
            &&& 1 <= u <= jj
            &&& st2.ops[u - 1] == Op::JumpIfZero((jj + 1) as usize)
        }) by {
            match st2.ops[jj] {
                Op::JumpIfNonZero(u) => {
                    if jj == j {
                        assert(u == a + 1);
                        assert(st2.ops[a] == Op::JumpIfZero((j + 1) as usize));
                    } else {
                        assert(st.ops[jj] == st2.ops[jj]);
                        assert(st.ops[u - 1] == Op::JumpIfZero((jj + 1) as usize));
                        // the patched slot held the placeholder target 0, so it is
                        // not the open this close points at
                        assert(u - 1 != a);
                        assert(st2.ops[u - 1] == Op::JumpIfZero((jj + 1) as usize));
                    }
                },
                _ => {},
            }
        }
        assert forall|p: int| 0 <= p < st2.pending.len() implies {
            &&& #[trigger] st2.pending[p] < st2.ops.len()
            &&& st2.ops[st2.pending[p] as int] == Op::JumpIfZero(0)
        } by {
            assert(st2.pending[p] == st.pending[p]);
            assert(st.pending[p] < st.pending.last());
            assert(st2.pending[p] as int != a);
        }
    }
}

/// Converts source text into an instruction sequence with resolved bracket
/// targets, or reports `UnbalancedBrackets`. Exactly the bytes `+ - < > . ,
/// [ ]` are instructions; every other byte is ignored.
pub fn parse(src: &[u8]) -> (r: Result<Vec<Op>, BfError>)
    ensures
        r is Ok <==> balanced(src@),
        r matches Ok(ops) ==> ops@ == parsed_ops(src@),
        r matches Ok(ops) ==> well_matched(ops@),
        r matches Err(e) ==> e == BfError::UnbalancedBrackets,
{
    let n = src.len();
    let mut ops: Vec<Op> = Vec::new();
    let mut stack: Vec<usize> = Vec::new();
    let mut k: usize = 0;
    while k < n
        invariant
            n == src@.len(),
            k <= n,
            ops@.len() <= k,
            scan(src@, k as int) == Some(ScanState { ops: ops@, pending: stack@ }),
            scan_invariant(ScanState { ops: ops@, pending: stack@ }),
        decreases n - k,
    {
        let ghost st = ScanState { ops: ops@, pending: stack@ };
        let c = src[k];
        match c {
            43 => ops.push(Op::Inc),  // '+'
            45 => ops.push(Op::Dec),  // '-'
            60 => ops.push(Op::Left),  // '<'
            62 => ops.push(Op::Right),  // '>'
            46 => ops.push(Op::Output),  // '.'
            44 => ops.push(Op::Input),  // ','
            91 => {
                // '['
                stack.push(ops.len());
                ops.push(Op::JumpIfZero(0));
            },
            93 => {
                // ']'
                match stack.pop() {
                    Some(a) => {
                        let close = ops.len();
                        ops.set(a, Op::JumpIfZero(close + 1));
                        ops.push(Op::JumpIfNonZero(a + 1));
                    },
                    None => {
                        proof {
                            assert(scan(src@, k + 1) is None);
                            lemma_scan_none_persists(src@, k + 1, n as int);
                        }
                        return Err(BfError::UnbalancedBrackets);
                    },
                }
            },
            _ => {},
        }
        proof {
            assert(scan_byte(st, c) == Some(ScanState { ops: ops@, pending: stack@ }));
            lemma_scan_byte_invariant(st, c);
        }
        k = k + 1;
    }
    if stack.len() == 0 {
        Ok(ops)
    } else {
        Err(BfError::UnbalancedBrackets)
    }
}

} // verus!
