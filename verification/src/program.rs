//! The front end: scans the raw program bytes, folds runs of identical
//! symbols into single counted instructions, and matches loop brackets with a
//! stack of pending loop-start positions.  `compile_spec` is the functional
//! description of the whole pass; the executable `compile` is proved equal to
//! it.

use vstd::prelude::*;

use crate::Error;

verus! {

/// Move the tape pointer forward.
pub const SYM_PTR_INC: u8 = 62u8;

/// Move the tape pointer backward.
pub const SYM_PTR_DEC: u8 = 60u8;

/// Increment the current cell.
pub const SYM_CELL_INC: u8 = 43u8;

/// Decrement the current cell.
pub const SYM_CELL_DEC: u8 = 45u8;

/// Write the current cell to the output channel.
pub const SYM_OUT: u8 = 46u8;

/// Read one byte from the input channel into the current cell.
pub const SYM_IN: u8 = 44u8;

/// Start of a loop.
pub const SYM_LOOP_START: u8 = 91u8;

/// End of a loop.
pub const SYM_LOOP_END: u8 = 93u8;

/// A condensed instruction.  Amounts come from run-length folding and are
/// capped to their field width; loop targets are indices into the final
/// instruction list, resolved when the matching bracket is reached.
#[derive(Clone, Copy, Debug, PartialEq, Eq, Structural)]
pub enum Ins {
    /// Move the pointer forward by `amount`, wrapping at the tape length.
    IncPtr { amount: u16 },
    /// Move the pointer backward by `amount`, wrapping at the tape length.
    DecPtr { amount: u16 },
    /// Add `amount` to the current cell, modulo 256.
    IncCell { amount: u8 },
    /// Subtract `amount` from the current cell, modulo 256.
    DecCell { amount: u8 },
    /// Write the current cell.
    Output,
    /// Read one byte into the current cell.
    Input,
    /// Jump to `to` when the current cell is zero.
    JmpFwd { to: usize },
    /// Jump to `to` when the current cell is nonzero.
    JmpBwd { to: usize },
    /// Stop execution.
    End,
}

/// How many further copies of `sym` follow position `i` onward.
pub open spec fn tail_run(p: Seq<u8>, i: int, sym: u8) -> nat
    decreases p.len() - i,
{
    if i < 0 || i >= p.len() || p[i] != sym {
        0
    } else {
        1 + tail_run(p, i + 1, sym)
    }
}

proof fn lemma_tail_run_le(p: Seq<u8>, i: int, sym: u8)
    requires
        i <= p.len(),
    ensures
        tail_run(p, i, sym) <= p.len() - i,
    decreases p.len() - i,
{
    if 0 <= i < p.len() && p[i] == sym {
        lemma_tail_run_le(p, i + 1, sym);
    }
}

/// `tail_run` counts exactly the span of copies of `sym` from `a` up to `b`.
proof fn lemma_tail_run_exact(p: Seq<u8>, a: int, b: int, sym: u8)
    requires
        0 <= a <= b <= p.len(),
        forall|j: int| a <= j < b ==> p[j] == sym,
        b == p.len() || p[b] != sym,
    ensures
        tail_run(p, a, sym) == b - a,
    decreases b - a,
{
    if a < b {
        lemma_tail_run_exact(p, a + 1, b, sym);
    }
}

/// A run of copies of `sym` from `a` to `b` bounds `tail_run` from below.
proof fn lemma_tail_run_at_least(p: Seq<u8>, a: int, b: int, sym: u8)
    requires
        0 <= a <= b <= p.len(),
        forall|j: int| a <= j < b ==> p[j] == sym,
    ensures
        tail_run(p, a, sym) >= b - a,
    decreases b - a,
{
    if a < b {
        lemma_tail_run_at_least(p, a + 1, b, sym);
    }
}

/// How many symbols beyond the current one a single instruction folds in:
/// the tail run, capped so that the amount `1 + extra` fits its field.
pub open spec fn run_extra(p: Seq<u8>, i: int, cap: nat) -> nat {
    let t = tail_run(p, i + 1, p[i]);
    if t > cap {
        cap
    } else {
        t
    }
}

/// One scan over the program from position `i`, with `stack` holding the
/// positions of pending loop starts in `out`.  Loop starts are emitted with a
/// placeholder target and patched when the matching loop end is reached.
pub open spec fn compile_from(p: Seq<u8>, i: int, stack: Seq<usize>, out: Seq<Ins>) -> Result<
    Seq<Ins>,
    Error,
>
    decreases p.len() - i,
        via compile_from_dec
{
    if i >= p.len() {
        if stack.len() == 0 {
            Ok(out.push(Ins::End))
        } else {
            Err(Error::UnmatchedLeft)
        }
    } else {
        let c = p[i];
        if c == SYM_PTR_INC {
            let extra = run_extra(p, i, 65534);
            compile_from(
                p,
                i + 1 + extra,
                stack,
                out.push(Ins::IncPtr { amount: (1 + extra) as u16 }),
            )
        } else if c == SYM_PTR_DEC {
            let extra = run_extra(p, i, 65534);
            compile_from(
                p,
                i + 1 + extra,
                stack,
                out.push(Ins::DecPtr { amount: (1 + extra) as u16 }),
            )
        } else if c == SYM_CELL_INC {
            let extra = run_extra(p, i, 254);
            compile_from(
                p,
                i + 1 + extra,
                stack,
                out.push(Ins::IncCell { amount: (1 + extra) as u8 }),
            )
        } else if c == SYM_CELL_DEC {
            let extra = run_extra(p, i, 254);
            compile_from(
                p,
                i + 1 + extra,
                stack,
                out.push(Ins::DecCell { amount: (1 + extra) as u8 }),
            )
        } else if c == SYM_OUT {
            compile_from(p, i + 1, stack, out.push(Ins::Output))
        } else if c == SYM_IN {
            compile_from(p, i + 1, stack, out.push(Ins::Input))
        } else if c == SYM_LOOP_START {
            compile_from(
                p,
                i + 1,
                stack.push(out.len() as usize),
                out.push(Ins::JmpFwd { to: 0 }),
            )
        } else if c == SYM_LOOP_END {
            if stack.len() == 0 {
                Err(Error::UnmatchedRight)
            } else {
                let s = stack.last();
                compile_from(
                    p,
                    i + 1,
                    stack.drop_last(),
                    out.update(s as int, Ins::JmpFwd { to: (out.len() + 1) as usize }).push(
                        Ins::JmpBwd { to: s },
                    ),
                )
            }
        } else {
            compile_from(p, i + 1, stack, out)
        }
    }
}

#[via_fn]
proof fn compile_from_dec(p: Seq<u8>, i: int, stack: Seq<usize>, out: Seq<Ins>) {
    if i < p.len() {
        lemma_tail_run_le(p, i + 1, p[i]);
    }
}

/// What the whole front-end pass yields for a program: its instruction list,
/// or the first bracket error.
pub open spec fn compile_spec(p: Seq<u8>) -> Result<Seq<Ins>, Error> {
    compile_from(p, 0, Seq::empty(), Seq::empty())
}

/// The jump targets at position `j` are sound: a forward jump stays within
/// `bound`, and a backward jump returns to an earlier loop start whose own
/// target is the instruction just past the backward jump.
pub open spec fn jumps_ok_at(code: Seq<Ins>, j: int, bound: int) -> bool {
    &&& (code[j] is JmpFwd ==> code[j]->JmpFwd_to < bound)
    &&& (code[j] is JmpBwd ==> code[j]->JmpBwd_to < j && code[code[j]->JmpBwd_to as int] == (
    Ins::JmpFwd { to: (j + 1) as usize }))
}

/// Structural soundness of an instruction list: it ends in the single stop
/// instruction, no other stop instruction occurs, and every jump target is
/// sound.
pub open spec fn wf(code: Seq<Ins>) -> bool {
    &&& code.len() >= 1
    &&& code.last() is End
    &&& forall|j: int| 0 <= j < code.len() - 1 ==> !(#[trigger] code[j] is End)
    &&& forall|j: int| 0 <= j < code.len() ==> #[trigger] jumps_ok_at(code, j, code.len() as int)
}

/// The invariants the scan maintains: pending loop starts are placeholder
/// forward jumps inside `out`, at strictly increasing positions, no stop
/// instruction has been emitted, forward jumps never point past the list,
/// and backward jumps are already matched.
spec fn scan_inv(stack: Seq<usize>, out: Seq<Ins>) -> bool {
    &&& forall|k: int|
        0 <= k < stack.len() ==> stack[k] < out.len() && #[trigger] out[stack[k] as int] == (
        Ins::JmpFwd { to: 0usize })
    &&& forall|k1: int, k2: int|
        0 <= k1 < k2 < stack.len() ==> #[trigger] stack[k1] < #[trigger] stack[k2]
    &&& forall|j: int| 0 <= j < out.len() ==> !(#[trigger] out[j] is End)
    &&& forall|j: int| 0 <= j < out.len() ==> #[trigger] jumps_ok_at(out, j, out.len() as int + 1)
}

/// A successful scan from an invariant-respecting state yields a well-formed
/// list no longer than the unread program plus the emitted part plus one.
proof fn lemma_compile_from_wf(p: Seq<u8>, i: int, stack: Seq<usize>, out: Seq<Ins>)
    requires
        0 <= i <= p.len(),
        p.len() <= usize::MAX,
        out.len() <= i,
        scan_inv(stack, out),
    ensures
        compile_from(p, i, stack, out) matches Ok(code) ==> wf(code) && code.len() <= p.len() + 1,
    decreases p.len() - i,
{
    if i >= p.len() {
        if stack.len() == 0 {
            let code = out.push(Ins::End);
            assert(forall|j: int| 0 <= j < out.len() ==> #[trigger] code[j] == out[j]);
            assert forall|j: int| 0 <= j < code.len() implies #[trigger] jumps_ok_at(
                code,
                j,
                code.len() as int,
            ) by {
                if j < out.len() {
                    assert(jumps_ok_at(out, j, out.len() + 1 as int));
                    assert(out[j] == code[j]);
                    if out[j] is JmpBwd {
                        let t = out[j]->JmpBwd_to;
                        assert(code[t as int] == out[t as int]);
                    }
                }
            }
            assert(wf(code));
        }
    } else {
        let c = p[i];
        if c == SYM_PTR_INC || c == SYM_PTR_DEC || c == SYM_CELL_INC || c == SYM_CELL_DEC {
            let cap: nat = if c == SYM_PTR_INC || c == SYM_PTR_DEC {
                65534nat
            } else {
                254nat
            };
            let extra = run_extra(p, i, cap);
            lemma_tail_run_le(p, i + 1, c);
            let ins = if c == SYM_PTR_INC {
                Ins::IncPtr { amount: (1 + extra) as u16 }
            } else if c == SYM_PTR_DEC {
                Ins::DecPtr { amount: (1 + extra) as u16 }
            } else if c == SYM_CELL_INC {
                Ins::IncCell { amount: (1 + extra) as u8 }
            } else {
                Ins::DecCell { amount: (1 + extra) as u8 }
            };
            lemma_scan_inv_plain(stack, out, ins);
            lemma_compile_from_wf(p, i + 1 + extra, stack, out.push(ins));
        } else if c == SYM_OUT {
            lemma_scan_inv_plain(stack, out, Ins::Output);
            lemma_compile_from_wf(p, i + 1, stack, out.push(Ins::Output));
        } else if c == SYM_IN {
            lemma_scan_inv_plain(stack, out, Ins::Input);
            lemma_compile_from_wf(p, i + 1, stack, out.push(Ins::Input));
        } else if c == SYM_LOOP_START {
            let stack2 = stack.push(out.len() as usize);
            let out2 = out.push(Ins::JmpFwd { to: 0 });
            assert(forall|j: int| 0 <= j < out.len() ==> #[trigger] out2[j] == out[j]);
            assert(forall|k: int| 0 <= k < stack.len() ==> #[trigger] stack2[k] == stack[k]);
            assert forall|j: int| 0 <= j < out2.len() implies #[trigger] jumps_ok_at(
                out2,
                j,
                out2.len() as int + 1,
            ) by {
                if j < out.len() {
                    assert(jumps_ok_at(out, j, out.len() + 1 as int));
                    assert(out2[j] == out[j]);
                    if out[j] is JmpBwd {
                        let t = out[j]->JmpBwd_to;
                        assert(out2[t as int] == out[t as int]);
                    }
                }
            }
            assert forall|k: int|
                0 <= k < stack2.len() implies stack2[k] < out2.len()
                    && #[trigger] out2[stack2[k] as int] == (Ins::JmpFwd { to: 0usize }) by {
                if k < stack.len() {
                    assert(stack2[k] == stack[k]);
                    assert(out[stack[k] as int] == (Ins::JmpFwd { to: 0usize }));
                    assert(out2[stack[k] as int] == out[stack[k] as int]);
                } else {
                    assert(stack2[k] == out.len() as usize);
                }
            }
            assert forall|k1: int, k2: int|
                0 <= k1 < k2 < stack2.len() implies #[trigger] stack2[k1]
                    < #[trigger] stack2[k2] by {
                assert(stack2[k1] == stack[k1]);
                if k2 < stack.len() {
                    assert(stack2[k2] == stack[k2]);
                } else {
                    assert(out[stack[k1] as int] == (Ins::JmpFwd { to: 0usize }));
                    assert(stack2[k2] == out.len() as usize);
                }
            }
            assert(scan_inv(stack2, out2));
            lemma_compile_from_wf(p, i + 1, stack2, out2);
        } else if c == SYM_LOOP_END {
            if stack.len() != 0 {
                let s = stack.last();
                let stack2 = stack.drop_last();
                let out2 = out.update(s as int, Ins::JmpFwd { to: (out.len() + 1) as usize }).push(
                    Ins::JmpBwd { to: s },
                );
                assert(out2.len() == out.len() + 1);
                assert(forall|j: int|
                    0 <= j < out.len() && j != s ==> #[trigger] out2[j] == out[j]);
                assert(forall|k: int| 0 <= k < stack2.len() ==> #[trigger] stack2[k] == stack[k]);
                assert forall|j: int| 0 <= j < out2.len() implies #[trigger] jumps_ok_at(
                    out2,
                    j,
                    out2.len() as int + 1,
                ) by {
                    if j < out.len() && j != s {
                        assert(jumps_ok_at(out, j, out.len() + 1 as int));
                        assert(out2[j] == out[j]);
                        if out[j] is JmpBwd {
                            let t = out[j]->JmpBwd_to;
                            assert(out[t as int] == (Ins::JmpFwd { to: (j + 1) as usize }));
                            assert(t != s) by {
                                if t == s {
                                    assert(out[s as int] == (Ins::JmpFwd { to: 0usize }));
                                }
                            }
                            assert(out2[t as int] == out[t as int]);
                        }
                    } else if j == s {
                        assert(out2[j] == (Ins::JmpFwd { to: (out.len() + 1) as usize }));
                    } else {
                        assert(out2[j] == (Ins::JmpBwd { to: s }));
                        assert(out2[s as int] == (Ins::JmpFwd { to: (out.len() + 1) as usize }));
                    }
                }
                assert forall|k1: int, k2: int|
                    0 <= k1 < k2 < stack2.len() implies #[trigger] stack2[k1]
                        < #[trigger] stack2[k2] by {
                    assert(stack2[k1] == stack[k1] && stack2[k2] == stack[k2]);
                }
                assert forall|k: int|
                    0 <= k < stack2.len() implies stack2[k] < out2.len()
                        && #[trigger] out2[stack2[k] as int] == (Ins::JmpFwd { to: 0usize }) by {
                    assert(stack2[k] == stack[k]);
                    assert(stack[k] < stack[stack.len() - 1]);
                    assert(out2[stack[k] as int] == out[stack[k] as int]);
                }
                assert(scan_inv(stack2, out2));
                lemma_compile_from_wf(p, i + 1, stack2, out2);
            }
        } else {
            lemma_compile_from_wf(p, i + 1, stack, out);
        }
    }
}

/// Pushing a plain (non-bracket) instruction keeps the scan invariants.
proof fn lemma_scan_inv_plain(stack: Seq<usize>, out: Seq<Ins>, ins: Ins)
    requires
        scan_inv(stack, out),
        !(ins is End),
        !(ins is JmpFwd),
        !(ins is JmpBwd),
    ensures
        scan_inv(stack, out.push(ins)),
{
    let out2 = out.push(ins);
    assert(forall|j: int| 0 <= j < out.len() ==> #[trigger] out2[j] == out[j]);
    assert forall|j: int| 0 <= j < out2.len() implies #[trigger] jumps_ok_at(
        out2,
        j,
        out2.len() as int + 1,
    ) by {
        if j < out.len() {
            assert(jumps_ok_at(out, j, out.len() + 1 as int));
            assert(out2[j] == out[j]);
            if out[j] is JmpBwd {
                assert(out2[out[j]->JmpBwd_to as int] == out[out[j]->JmpBwd_to as int]);
            }
        }
    }
    assert forall|k: int|
        0 <= k < stack.len() implies stack[k] < out2.len() && #[trigger] out2[stack[k] as int]
            == (Ins::JmpFwd { to: 0usize }) by {
        assert(out[stack[k] as int] == (Ins::JmpFwd { to: 0usize }));
        assert(out2[stack[k] as int] == out[stack[k] as int]);
    }
}

/// A successfully compiled program yields a well-formed instruction list of
/// bounded length.
pub proof fn lemma_compile_spec_wf(p: Seq<u8>)
    requires
        p.len() <= usize::MAX,
    ensures
        compile_spec(p) matches Ok(code) ==> wf(code) && code.len() <= p.len() + 1,
{
    lemma_compile_from_wf(p, 0, Seq::empty(), Seq::empty());
}

/// The depth-counting description of bracket structure: scanning from `i`
/// with `depth` open loops, the program is accepted exactly when every loop
/// end closes an open loop and every open loop is closed.
pub open spec fn bracket_scan(p: Seq<u8>, i: int, depth: nat) -> Option<Error>
    decreases p.len() - i,
{
    if i >= p.len() {
        if depth == 0 {
            None
        } else {
            Some(Error::UnmatchedLeft)
        }
    } else if p[i] == SYM_LOOP_START {
        bracket_scan(p, i + 1, depth + 1)
    } else if p[i] == SYM_LOOP_END {
        if depth == 0 {
            Some(Error::UnmatchedRight)
        } else {
            bracket_scan(p, i + 1, (depth - 1) as nat)
        }
    } else {
        bracket_scan(p, i + 1, depth)
    }
}

/// Balanced brackets: the depth scan accepts the whole program.
pub open spec fn balanced(p: Seq<u8>) -> bool {
    bracket_scan(p, 0, 0) is None
}

/// Positions that hold no bracket do not change the depth scan.
proof fn lemma_bracket_scan_skip(p: Seq<u8>, a: int, b: int, depth: nat)
    requires
        0 <= a <= b <= p.len(),
        forall|j: int| a <= j < b ==> p[j] != SYM_LOOP_START && p[j] != SYM_LOOP_END,
    ensures
        bracket_scan(p, a, depth) == bracket_scan(p, b, depth),
    decreases b - a,
{
    if a < b {
        lemma_bracket_scan_skip(p, a + 1, b, depth);
    }
}

/// The scan and the compiler classify programs identically, step by step.
proof fn lemma_compile_from_classifies(p: Seq<u8>, i: int, stack: Seq<usize>, out: Seq<Ins>)
    requires
        0 <= i <= p.len(),
    ensures
        compile_from(p, i, stack, out) is Ok <==> bracket_scan(p, i, stack.len()) is None,
        compile_from(p, i, stack, out) matches Err(e) ==> bracket_scan(p, i, stack.len())
            == Some(e),
    decreases p.len() - i,
{
    if i < p.len() {
        let c = p[i];
        if c == SYM_PTR_INC || c == SYM_PTR_DEC || c == SYM_CELL_INC || c == SYM_CELL_DEC {
            let cap: nat = if c == SYM_PTR_INC || c == SYM_PTR_DEC {
                65534nat
            } else {
                254nat
            };
            let extra = run_extra(p, i, cap);
            lemma_tail_run_le(p, i + 1, c);
            lemma_tail_run_covers(p, i + 1, c);
            assert(forall|j: int|
                i <= j < i + 1 + extra ==> p[j] != SYM_LOOP_START && p[j] != SYM_LOOP_END);
            lemma_bracket_scan_skip(p, i, i + 1 + extra, stack.len());
            let ins = if c == SYM_PTR_INC {
                Ins::IncPtr { amount: (1 + extra) as u16 }
            } else if c == SYM_PTR_DEC {
                Ins::DecPtr { amount: (1 + extra) as u16 }
            } else if c == SYM_CELL_INC {
                Ins::IncCell { amount: (1 + extra) as u8 }
            } else {
                Ins::DecCell { amount: (1 + extra) as u8 }
            };
            lemma_compile_from_classifies(p, i + 1 + extra, stack, out.push(ins));
        } else if c == SYM_OUT {
            lemma_compile_from_classifies(p, i + 1, stack, out.push(Ins::Output));
        } else if c == SYM_IN {
            lemma_compile_from_classifies(p, i + 1, stack, out.push(Ins::Input));
        } else if c == SYM_LOOP_START {
            lemma_compile_from_classifies(
                p,
                i + 1,
                stack.push(out.len() as usize),
                out.push(Ins::JmpFwd { to: 0 }),
            );
        } else if c == SYM_LOOP_END {
            if stack.len() != 0 {
                let s = stack.last();
                lemma_compile_from_classifies(
                    p,
                    i + 1,
                    stack.drop_last(),
                    out.update(s as int, Ins::JmpFwd { to: (out.len() + 1) as usize }).push(
                        Ins::JmpBwd { to: s },
                    ),
                );
            }
        } else {
            lemma_compile_from_classifies(p, i + 1, stack, out);
        }
    }
}

/// Every position inside the counted run holds the run's symbol.
proof fn lemma_tail_run_covers(p: Seq<u8>, a: int, sym: u8)
    ensures
        forall|j: int| a <= j < a + tail_run(p, a, sym) ==> p[j] == sym,
    decreases p.len() - a,
{
    if 0 <= a < p.len() && p[a] == sym {
        lemma_tail_run_covers(p, a + 1, sym);
    }
}

/// The depth scan reports nothing but the two bracket errors.
proof fn lemma_bracket_scan_kinds(p: Seq<u8>, i: int, depth: nat)
    ensures
        bracket_scan(p, i, depth) matches Some(e) ==> e is UnmatchedLeft || e is UnmatchedRight,
    decreases p.len() - i,
{
    if i < p.len() {
        if p[i] == SYM_LOOP_START {
            lemma_bracket_scan_kinds(p, i + 1, depth + 1);
        } else if p[i] == SYM_LOOP_END {
            if depth > 0 {
                lemma_bracket_scan_kinds(p, i + 1, (depth - 1) as nat);
            }
        } else {
            lemma_bracket_scan_kinds(p, i + 1, depth);
        }
    }
}

/// Compilation succeeds exactly on programs with balanced brackets; an
/// unmatched loop start fails with `UnmatchedLeft`, an unmatched loop end
/// with `UnmatchedRight`, as the depth scan classifies them, and no other
/// failure exists at compile time.
pub proof fn lemma_compile_classifies(p: Seq<u8>)
    ensures
        compile_spec(p) is Ok <==> balanced(p),
        compile_spec(p) matches Err(e) ==> bracket_scan(p, 0, 0) == Some(e),
        compile_spec(p) matches Err(e) ==> e is UnmatchedLeft || e is UnmatchedRight,
{
    lemma_compile_from_classifies(p, 0, Seq::empty(), Seq::empty());
    lemma_bracket_scan_kinds(p, 0, 0);
}

/// Scans the program and produces its condensed, bracket-matched instruction
/// list, exactly as `compile_spec` describes: runs of the four foldable
/// symbols become counted instructions (consumption capped at the amount
/// field's width), other bytes outside the eight-symbol alphabet are skipped,
/// and each loop end resolves the placeholder target of its loop start.
pub fn compile(program: &[u8]) -> (r: Result<Vec<Ins>, Error>)
    ensures
        match r {
            Ok(code) => compile_spec(program@) == Ok::<Seq<Ins>, Error>(code@),
            Err(e) => compile_spec(program@) == Err::<Seq<Ins>, Error>(e),
        },
{
    let n = program.len();
    let mut out: Vec<Ins> = Vec::new();
    let mut stack: Vec<usize> = Vec::new();
    let mut i: usize = 0;
    while i < n
        invariant
            n == program@.len(),
            i <= n,
            out@.len() <= i,
            forall|k: int| 0 <= k < stack@.len() ==> stack@[k] < out@.len(),
            compile_from(program@, i as int, stack@, out@) == compile_spec(program@),
        decreases n - i,
    {
        let c = program[i];
        if c == SYM_PTR_INC || c == SYM_PTR_DEC {
            let start: usize = i;
            let mut count: u16 = 1;
            i = i + 1;
            while i < n && count < 65535 && program[i] == c
                invariant
                    n == program@.len(),
                    start < i <= n,
                    1 <= count <= 65535,
                    i - start == count,
                    forall|j: int| start <= j < i ==> program@[j] == c,
                decreases n - i,
            {
                count = count + 1;
                i = i + 1;
            }
            proof {
                if count < 65535 {
                    lemma_tail_run_exact(program@, start + 1, i as int, c);
                } else {
                    lemma_tail_run_at_least(program@, start + 1, i as int, c);
                }
            }
            if c == SYM_PTR_INC {
                out.push(Ins::IncPtr { amount: count });
            } else {
                out.push(Ins::DecPtr { amount: count });
            }
        } else if c == SYM_CELL_INC || c == SYM_CELL_DEC {
            let start: usize = i;
            let mut count: u8 = 1;
            i = i + 1;
            while i < n && count < 255 && program[i] == c
                invariant
                    n == program@.len(),
                    start < i <= n,
                    1 <= count <= 255,
                    i - start == count,
                    forall|j: int| start <= j < i ==> program@[j] == c,
                decreases n - i,
            {
                count = count + 1;
                i = i + 1;
            }
            proof {
                if count < 255 {
                    lemma_tail_run_exact(program@, start + 1, i as int, c);
                } else {
                    lemma_tail_run_at_least(program@, start + 1, i as int, c);
                }
            }
            if c == SYM_CELL_INC {
                out.push(Ins::IncCell { amount: count });
            } else {
                out.push(Ins::DecCell { amount: count });
            }
        } else if c == SYM_OUT {
            out.push(Ins::Output);
            i = i + 1;
        } else if c == SYM_IN {
            out.push(Ins::Input);
            i = i + 1;
        } else if c == SYM_LOOP_START {
            stack.push(out.len());
            out.push(Ins::JmpFwd { to: 0 });
            i = i + 1;
        } else if c == SYM_LOOP_END {
            match stack.pop() {
                Some(s) => {
                    let t = out.len() + 1;
                    out.set(s, Ins::JmpFwd { to: t });
                    out.push(Ins::JmpBwd { to: s });
                },
                None => {
                    return Err(Error::UnmatchedRight);
                },
            }
            i = i + 1;
        } else {
            i = i + 1;
        }
    }
    if stack.len() == 0 {
        out.push(Ins::End);
        Ok(out)
    } else {
        Err(Error::UnmatchedLeft)
    }
}

} // verus!
