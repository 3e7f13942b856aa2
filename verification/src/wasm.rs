//! Lowering of the optimized IR to target-machine instructions. `WasmOp`
//! stands for exactly one target instruction as used by this compiler; the
//! lowering of each IR instruction is pinned down by a spec function, and the
//! executable lowering computes it.

use vstd::prelude::*;

use crate::ir::{Inst, IR};

verus! {

/// One target-machine instruction, as plain values: an opcode plus its
/// immediates.
#[derive(PartialEq, Eq, Structural, Clone, Copy, Debug)]
pub enum WasmOp {
    I32Const(i32),
    LocalGet(u32),
    LocalSet(u32),
    LocalTee(u32),
    I32Add,
    I32Sub,
    I32Mul,
    I32Eqz,
    I32Ne,
    I32Clz,
    I32Ctz,
    I32Load8U,
    I32Store8,
    Call(u32),
    Block,
    Loop,
    Br(u32),
    BrIf(u32),
    End,
    V128Const(i128),
    V128Load,
    V128And,
    I8x16Eq,
    I8x16Bitmask,
}

/// The data-pointer register.
pub const DP: u32 = 0;

/// The scratch register the vectorized scans use.
pub const SCRATCH: u32 = 1;

/// Index of the host byte-write import.
pub const WRITE_FN: u32 = 0;

/// Index of the host byte-read import.
pub const READ_FN: u32 = 1;

/// Index of the host debug-termination import.
pub const DEBUG_FN: u32 = 2;

/// Lane mask that keeps every second byte of a 16-byte chunk.
pub const MASK_STRIDE_2: i128 = 0x00FF00FF00FF00FF00FF00FF00FF00FF;

/// Lane mask that keeps every fourth byte of a 16-byte chunk.
pub const MASK_STRIDE_4: i128 = 0x000000FF000000FF000000FF000000FF;

/// Every repetition count in the program fits a 32-bit immediate, and every
/// scan stride has a vectorized lowering. What the code generator lives on.
pub open spec fn codegen_inst_ok(i: Inst) -> bool {
    match i {
        Inst::Add(ct) => ct <= 0x7fff_ffff,
        Inst::Sub(ct) => ct <= 0x7fff_ffff,
        Inst::Right(ct) => ct <= 0x7fff_ffff,
        Inst::Left(ct) => ct <= 0x7fff_ffff,
        Inst::AddFrom(ct, _) => ct <= 0x7fff_ffff,
        Inst::SubFrom(ct, _) => ct <= 0x7fff_ffff,
        Inst::Scan(stride) => stride == 1 || stride == 2 || stride == 4 || stride == -1 || stride
            == -2,
        _ => true,
    }
}

pub open spec fn codegen_ok(s: Seq<Inst>) -> bool {
    forall|k: int| 0 <= k < s.len() ==> codegen_inst_ok(#[trigger] s[k])
}

/// Load the current cell, combine it with the literal count, store it back.
pub open spec fn lower_add_or_sub(ct: usize, op: WasmOp) -> Seq<WasmOp> {
    seq![
        WasmOp::LocalGet(DP),
        WasmOp::LocalGet(DP),
        WasmOp::I32Load8U,
        WasmOp::I32Const(ct as i32),
        op,
        WasmOp::I32Store8,
    ]
}

/// Load the cell at `dp + off`, combine it with the counter cell times the
/// count (the multiply elided when the count is 1), store it back.
pub open spec fn lower_add_or_sub_from(ct: usize, off: i32, op: WasmOp) -> Seq<WasmOp> {
    seq![
        WasmOp::LocalGet(DP),
        WasmOp::I32Const(off),
        WasmOp::I32Add,
        WasmOp::LocalGet(DP),
        WasmOp::I32Const(off),
        WasmOp::I32Add,
        WasmOp::I32Load8U,
        WasmOp::LocalGet(DP),
        WasmOp::I32Load8U,
    ] + (if ct != 1 {
        seq![WasmOp::I32Const(ct as i32), WasmOp::I32Mul]
    } else {
        Seq::empty()
    }) + seq![op, WasmOp::I32Store8]
}

/// Move the data pointer by the literal count.
pub open spec fn lower_move(ct: usize, op: WasmOp) -> Seq<WasmOp> {
    seq![WasmOp::LocalGet(DP), WasmOp::I32Const(ct as i32), op, WasmOp::LocalSet(DP)]
}

/// Store zero at `dp + off` (the offset arithmetic elided when it is 0).
pub open spec fn lower_zero(off: i32) -> Seq<WasmOp> {
    seq![WasmOp::LocalGet(DP)] + (if off != 0 {
        seq![WasmOp::I32Const(off), WasmOp::I32Add]
    } else {
        Seq::empty()
    }) + seq![WasmOp::I32Const(0), WasmOp::I32Store8]
}

/// A structured block+loop pair that branches out when the current cell is
/// zero and otherwise iterates.
pub open spec fn lower_loop_start() -> Seq<WasmOp> {
    seq![
        WasmOp::Block,
        WasmOp::Loop,
        WasmOp::LocalGet(DP),
        WasmOp::I32Load8U,
        WasmOp::I32Eqz,
        WasmOp::BrIf(1),
    ]
}

pub open spec fn lower_loop_end() -> Seq<WasmOp> {
    seq![WasmOp::Br(0), WasmOp::End, WasmOp::End]
}

/// A single guarded block with no back-edge: skipped entirely when the cell
/// at `dp + off` is zero.
pub open spec fn lower_simple_loop_start(off: i32) -> Seq<WasmOp> {
    seq![WasmOp::Block, WasmOp::LocalGet(DP)] + (if off != 0 {
        seq![WasmOp::I32Const(off), WasmOp::I32Add]
    } else {
        Seq::empty()
    }) + seq![WasmOp::I32Load8U, WasmOp::I32Eqz, WasmOp::BrIf(0)]
}

pub open spec fn lower_simple_loop_end() -> Seq<WasmOp> {
    seq![WasmOp::End]
}

/// Invoke the host read callback and store the byte at the current cell.
pub open spec fn lower_in() -> Seq<WasmOp> {
    seq![WasmOp::LocalGet(DP), WasmOp::Call(READ_FN), WasmOp::I32Store8]
}

/// Load the current cell and hand it to the host write callback.
pub open spec fn lower_out() -> Seq<WasmOp> {
    seq![WasmOp::LocalGet(DP), WasmOp::I32Load8U, WasmOp::Call(WRITE_FN)]
}

/// The forward vectorized scan: probe 16-byte chunks at `dp`, compare lanes
/// to zero (masked for strides 2 and 4), take the trailing-zero count of the
/// lane bitmask, advance a full chunk while no lane qualifies, then correct
/// `dp` by the found lane offset. Guarded like a simple loop so a zero cell
/// skips it entirely.
pub open spec fn lower_for_scan(stride: i32) -> Seq<WasmOp> {
    lower_simple_loop_start(0) + seq![
        WasmOp::Block,
        WasmOp::Loop,
        WasmOp::V128Const(0),
        WasmOp::LocalGet(DP),
        WasmOp::V128Load,
        WasmOp::I8x16Eq,
    ] + (if stride == 2 {
        seq![WasmOp::V128Const(MASK_STRIDE_2), WasmOp::V128And]
    } else if stride == 4 {
        seq![WasmOp::V128Const(MASK_STRIDE_4), WasmOp::V128And]
    } else {
        Seq::empty()
    }) + seq![
        WasmOp::I8x16Bitmask,
        WasmOp::I32Ctz,
        WasmOp::LocalTee(SCRATCH),
        WasmOp::I32Const(32),
        WasmOp::I32Ne,
        WasmOp::BrIf(1),
        WasmOp::LocalGet(DP),
        WasmOp::I32Const(16),
        WasmOp::I32Add,
        WasmOp::LocalSet(DP),
        WasmOp::Br(0),
        WasmOp::End,
        WasmOp::End,
        WasmOp::LocalGet(SCRATCH),
        WasmOp::LocalGet(DP),
        WasmOp::I32Add,
        WasmOp::LocalSet(DP),
    ] + lower_simple_loop_end()
}

/// The backward vectorized scan: pre-decrement `dp` by one chunk, probe the
/// chunk behind the position with a leading-zero count from the high end,
/// retreat chunk by chunk, then correct `dp` by the found lane offset.
pub open spec fn lower_rev_scan(stride: i32) -> Seq<WasmOp> {
    lower_simple_loop_start(0) + seq![
        WasmOp::LocalGet(DP),
        WasmOp::I32Const(-16i32),
        WasmOp::I32Add,
        WasmOp::LocalSet(DP),
        WasmOp::Block,
        WasmOp::Loop,
        WasmOp::V128Const(0),
        WasmOp::LocalGet(DP),
        WasmOp::V128Load,
        WasmOp::I8x16Eq,
    ] + (if stride == -2 {
        seq![WasmOp::V128Const(MASK_STRIDE_2), WasmOp::V128And]
    } else {
        Seq::empty()
    }) + seq![
        WasmOp::I8x16Bitmask,
        WasmOp::I32Clz,
        WasmOp::I32Const(-16i32),
        WasmOp::I32Add,
        WasmOp::LocalTee(SCRATCH),
        WasmOp::I32Const(16),
        WasmOp::I32Ne,
        WasmOp::BrIf(1),
        WasmOp::LocalGet(DP),
        WasmOp::I32Const(-16i32),
        WasmOp::I32Add,
        WasmOp::LocalSet(DP),
        WasmOp::Br(0),
        WasmOp::End,
        WasmOp::End,
        WasmOp::LocalGet(DP),
        WasmOp::LocalGet(SCRATCH),
        WasmOp::I32Sub,
        WasmOp::I32Const(15),
        WasmOp::I32Add,
        WasmOp::LocalSet(DP),
    ] + lower_simple_loop_end()
}

pub open spec fn lower_scan(stride: i32) -> Seq<WasmOp> {
    if stride > 0 {
        lower_for_scan(stride)
    } else {
        lower_rev_scan(stride)
    }
}

/// The instruction sequence one IR instruction lowers to.
pub open spec fn lower_inst(i: Inst) -> Seq<WasmOp> {
    match i {
        Inst::Add(ct) => lower_add_or_sub(ct, WasmOp::I32Add),
        Inst::Sub(ct) => lower_add_or_sub(ct, WasmOp::I32Sub),
        Inst::AddFrom(ct, off) => lower_add_or_sub_from(ct, off, WasmOp::I32Add),
        Inst::SubFrom(ct, off) => lower_add_or_sub_from(ct, off, WasmOp::I32Sub),
        Inst::Right(ct) => lower_move(ct, WasmOp::I32Add),
        Inst::Left(ct) => lower_move(ct, WasmOp::I32Sub),
        Inst::In => lower_in(),
        Inst::Out => lower_out(),
        Inst::LoopStart => lower_loop_start(),
        Inst::LoopEnd => lower_loop_end(),
        Inst::SimpleLoopStart(off) => lower_simple_loop_start(off),
        Inst::SimpleLoopEnd => lower_simple_loop_end(),
        Inst::Zero(off) => lower_zero(off),
        Inst::Scan(stride) => lower_scan(stride),
    }
}

/// The whole program's lowering, instruction by instruction.
pub open spec fn lower_insts(s: Seq<Inst>) -> Seq<WasmOp>
    decreases s.len(),
{
    if s.len() == 0 {
        Seq::empty()
    } else {
        lower_inst(s[0]) + lower_insts(s.skip(1))
    }
}

/// The entry point opens by parking the data pointer at a base offset chosen
/// so backward scans never probe before the start of memory.
pub open spec fn lower_prologue() -> Seq<WasmOp> {
    seq![WasmOp::I32Const(16), WasmOp::LocalSet(DP)]
}

/// The entry point closes by reporting the final pointer and cell to the
/// host debug-termination import, then ends the function body.
pub open spec fn lower_epilogue() -> Seq<WasmOp> {
    seq![
        WasmOp::LocalGet(DP),
        WasmOp::LocalGet(DP),
        WasmOp::I32Load8U,
        WasmOp::Call(DEBUG_FN),
        WasmOp::End,
    ]
}

/// The complete body of the compiled entry point.
pub open spec fn lower_program_spec(s: Seq<Inst>) -> Seq<WasmOp> {
    lower_prologue() + lower_insts(s) + lower_epilogue()
}

proof fn lemma_codegen_ok_concat(a: Seq<Inst>, b: Seq<Inst>)
    requires
        codegen_ok(a),
        codegen_ok(b),
    ensures
        codegen_ok(a + b),
{
    assert forall|k: int| 0 <= k < (a + b).len() implies codegen_inst_ok(#[trigger] (a + b)[k]) by {
        if k < a.len() {
            assert((a + b)[k] == a[k]);
        } else {
            assert((a + b)[k] == b[k - a.len()]);
        }
    }
}

proof fn lemma_codegen_ok_skip(s: Seq<Inst>, i: int)
    requires
        codegen_ok(s),
        0 <= i <= s.len(),
    ensures
        codegen_ok(s.skip(i)),
{
    assert forall|k: int| 0 <= k < s.skip(i).len() implies codegen_inst_ok(
        #[trigger] s.skip(i)[k],
    ) by {
        assert(s.skip(i)[k] == s[i + k]);
    }
}

/// Everything the parser emits carries count 1 or no count at all.
pub proof fn lemma_codegen_ok_parse(s: Seq<char>)
    ensures
        codegen_ok(crate::ir::parse_spec(s)),
        forall|k: int|
            0 <= k < crate::ir::parse_spec(s).len() ==> crate::ir::count_of(
                #[trigger] crate::ir::parse_spec(s)[k],
            ) <= 1,
        crate::ir::parse_spec(s).len() <= s.len(),
{
    let filtered = s.filter(|c: char| crate::ir::is_significant(c));
    let out = crate::ir::parse_spec(s);
    s.lemma_filter_len(|c: char| crate::ir::is_significant(c));
    assert forall|k: int| 0 <= k < out.len() implies codegen_inst_ok(#[trigger] out[k])
        && crate::ir::count_of(out[k]) <= 1 by {
        assert(out[k] == crate::ir::inst_of_char(filtered[k]));
    }
}

/// Run-length combining keeps the program lowerable: merged counts are
/// bounded by the total count, which the caller bounds.
pub proof fn lemma_codegen_ok_combine(s: Seq<Inst>)
    requires
        codegen_ok(s),
        0 <= crate::ir::sum_counts(s) <= 0x7fff_ffff,
    ensures
        codegen_ok(crate::ir::combine_spec(s)),
    decreases s.len(),
{
    if s.len() > 0 {
        crate::ir::lemma_run_props(s);
        let n = crate::ir::run_length(s);
        crate::ir::lemma_sum_counts_split(s, n);
        crate::ir::lemma_sum_counts_nonneg(s.take(n));
        crate::ir::lemma_sum_counts_nonneg(s.skip(n));
        lemma_codegen_ok_skip(s, n);
        lemma_codegen_ok_combine(s.skip(n));
        let head = if crate::ir::mergeable(s[0]) {
            crate::ir::with_count(s[0], crate::ir::run_sum(s))
        } else {
            s[0]
        };
        assert(codegen_inst_ok(head)) by {
            assert(codegen_inst_ok(s[0]));
            if crate::ir::mergeable(s[0]) {
                assert(0 <= crate::ir::run_sum(s) <= 0x7fff_ffff);
            }
        }
        lemma_codegen_ok_concat(seq![head], crate::ir::combine_spec(s.skip(n)));
        assert(codegen_ok(seq![head])) by {
            assert(seq![head][0] == head);
        }
        assert(crate::ir::combine_spec(s) == seq![head] + crate::ir::combine_spec(s.skip(n)));
    }
}

/// The cell-zero rewrite only removes counted instructions and adds
/// zero-stores.
pub proof fn lemma_codegen_ok_cell_zero(s: Seq<Inst>)
    requires
        codegen_ok(s),
    ensures
        codegen_ok(crate::opt::cell_zero_spec(s)),
    decreases s.len(),
{
    if s.len() > 0 {
        if crate::opt::cz_match(s) {
            lemma_codegen_ok_skip(s, 3);
            lemma_codegen_ok_cell_zero(s.skip(3));
            assert(codegen_ok(seq![Inst::Zero(0)])) by {
                assert(seq![Inst::Zero(0)][0] == Inst::Zero(0));
            }
            lemma_codegen_ok_concat(seq![Inst::Zero(0)], crate::opt::cell_zero_spec(s.skip(3)));
        } else {
            lemma_codegen_ok_skip(s, 1);
            lemma_codegen_ok_cell_zero(s.skip(1));
            assert(codegen_ok(seq![s[0]])) by {
                assert(seq![s[0]][0] == s[0]);
            }
            lemma_codegen_ok_concat(seq![s[0]], crate::opt::cell_zero_spec(s.skip(1)));
        }
    }
}

/// Cell-zero rewriting never raises the total count.
pub proof fn lemma_sum_counts_cell_zero(s: Seq<Inst>)
    ensures
        crate::ir::sum_counts(crate::opt::cell_zero_spec(s)) <= crate::ir::sum_counts(s),
        0 <= crate::ir::sum_counts(crate::opt::cell_zero_spec(s)),
    decreases s.len(),
{
    crate::ir::lemma_sum_counts_nonneg(crate::opt::cell_zero_spec(s));
    if s.len() > 0 {
        if crate::opt::cz_match(s) {
            lemma_sum_counts_cell_zero(s.skip(3));
            crate::ir::lemma_sum_counts_split(s, 3);
            crate::ir::lemma_sum_counts_nonneg(s.take(3));
            let out = crate::opt::cell_zero_spec(s);
            assert(out == seq![Inst::Zero(0)] + crate::opt::cell_zero_spec(s.skip(3)));
            assert(out[0] == Inst::Zero(0));
            assert(out.skip(1) =~= crate::opt::cell_zero_spec(s.skip(3)));
            assert(crate::ir::sum_counts(out) == crate::ir::sum_counts(
                crate::opt::cell_zero_spec(s.skip(3)),
            ));
        } else {
            lemma_sum_counts_cell_zero(s.skip(1));
            crate::ir::lemma_sum_counts_split(s, 1);
            crate::ir::lemma_sum_counts_nonneg(s.take(1));
            let out = crate::opt::cell_zero_spec(s);
            assert(out == seq![s[0]] + crate::opt::cell_zero_spec(s.skip(1)));
            assert(out[0] == s[0]);
            assert(out.skip(1) =~= crate::opt::cell_zero_spec(s.skip(1)));
            assert(s.take(1) =~= seq![s[0]]);
            assert(crate::ir::sum_counts(s.take(1)) == crate::ir::count_of(s[0])) by {
                assert(s.take(1)[0] == s[0]);
                assert(s.take(1).skip(1) =~= Seq::<Inst>::empty());
            }
            assert(crate::ir::sum_counts(out) == crate::ir::count_of(s[0])
                + crate::ir::sum_counts(crate::opt::cell_zero_spec(s.skip(1))));
        }
    }
}

proof fn lemma_codegen_ok_reduce(s: Seq<Inst>, dp: int)
    requires
        codegen_ok(s),
    ensures
        codegen_ok(crate::opt::reduce_body(s, dp)),
    decreases s.len(),
{
    if s.len() > 0 {
        lemma_codegen_ok_skip(s, 1);
        assert(codegen_inst_ok(s[0]));
        match s[0] {
            Inst::Right(ct) => lemma_codegen_ok_reduce(s.skip(1), dp + ct),
            Inst::Left(ct) => lemma_codegen_ok_reduce(s.skip(1), dp - ct),
            Inst::Add(ct) => {
                lemma_codegen_ok_reduce(s.skip(1), dp);
                if dp != 0 {
                    let h = Inst::AddFrom(ct, dp as i32);
                    assert(codegen_ok(seq![h])) by {
                        assert(seq![h][0] == h);
                    }
                    lemma_codegen_ok_concat(seq![h], crate::opt::reduce_body(s.skip(1), dp));
                }
            },
            Inst::Sub(ct) => {
                lemma_codegen_ok_reduce(s.skip(1), dp);
                if dp != 0 {
                    let h = Inst::SubFrom(ct, dp as i32);
                    assert(codegen_ok(seq![h])) by {
                        assert(seq![h][0] == h);
                    }
                    lemma_codegen_ok_concat(seq![h], crate::opt::reduce_body(s.skip(1), dp));
                }
            },
            Inst::Zero(_) => {
                lemma_codegen_ok_reduce(s.skip(1), dp);
                let h = Inst::Zero(dp as i32);
                assert(codegen_ok(seq![h])) by {
                    assert(seq![h][0] == h);
                }
                lemma_codegen_ok_concat(seq![h], crate::opt::reduce_body(s.skip(1), dp));
            },
            _ => lemma_codegen_ok_reduce(s.skip(1), dp),
        }
    }
}

/// Strength reduction keeps the program lowerable: the multiply-accumulate
/// counts are the body's own counts.
pub proof fn lemma_codegen_ok_opt_loops(s: Seq<Inst>)
    requires
        codegen_ok(s),
    ensures
        codegen_ok(crate::opt::opt_loops_spec(s)),
    decreases s.len(),
{
    if s.len() > 0 {
        let rewrite = s[0] == Inst::LoopStart && match crate::opt::inner_end(s) {
            Some(j) => crate::opt::is_simple_spec(s.subrange(1, j)) && crate::opt::reducible(
                s.subrange(1, j),
            ),
            None => false,
        };
        if rewrite {
            let j = crate::opt::inner_end(s)->Some_0;
            crate::opt::lemma_inner_end_props(s, 1);
            let body = s.subrange(1, j);
            assert(codegen_ok(body)) by {
                assert forall|k: int| 0 <= k < body.len() implies codegen_inst_ok(
                    #[trigger] body[k],
                ) by {
                    assert(body[k] == s[1 + k]);
                }
            }
            lemma_codegen_ok_reduce(body, 0);
            lemma_codegen_ok_skip(s, j + 1);
            lemma_codegen_ok_opt_loops(s.skip(j + 1));
            assert(codegen_ok(seq![Inst::SimpleLoopStart(0)])) by {
                assert(seq![Inst::SimpleLoopStart(0)][0] == Inst::SimpleLoopStart(0));
            }
            assert(codegen_ok(seq![Inst::Zero(0), Inst::SimpleLoopEnd])) by {
                assert(seq![Inst::Zero(0), Inst::SimpleLoopEnd][0] == Inst::Zero(0));
                assert(seq![Inst::Zero(0), Inst::SimpleLoopEnd][1] == Inst::SimpleLoopEnd);
            }
            lemma_codegen_ok_concat(
                seq![Inst::SimpleLoopStart(0)],
                crate::opt::reduce_body(body, 0),
            );
            lemma_codegen_ok_concat(
                seq![Inst::SimpleLoopStart(0)] + crate::opt::reduce_body(body, 0),
                seq![Inst::Zero(0), Inst::SimpleLoopEnd],
            );
            assert(crate::opt::reduced_loop(body) == seq![Inst::SimpleLoopStart(0)]
                + crate::opt::reduce_body(body, 0) + seq![Inst::Zero(0), Inst::SimpleLoopEnd]);
            lemma_codegen_ok_concat(
                crate::opt::reduced_loop(body),
                crate::opt::opt_loops_spec(s.skip(j + 1)),
            );
        } else {
            lemma_codegen_ok_skip(s, 1);
            lemma_codegen_ok_opt_loops(s.skip(1));
            assert(codegen_ok(seq![s[0]])) by {
                assert(seq![s[0]][0] == s[0]);
            }
            lemma_codegen_ok_concat(seq![s[0]], crate::opt::opt_loops_spec(s.skip(1)));
        }
    }
}

/// Scan recognition only introduces strides that have a lowering.
pub proof fn lemma_codegen_ok_scan_opt(s: Seq<Inst>)
    requires
        codegen_ok(s),
    ensures
        codegen_ok(crate::opt::scan_opt_spec(s)),
    decreases s.len(),
{
    if s.len() > 0 {
        if crate::opt::scan_match(s) {
            lemma_codegen_ok_skip(s, 3);
            lemma_codegen_ok_scan_opt(s.skip(3));
            let h = Inst::Scan(crate::opt::stride_of(s[1]));
            assert(codegen_inst_ok(h));
            assert(codegen_ok(seq![h])) by {
                assert(seq![h][0] == h);
            }
            lemma_codegen_ok_concat(seq![h], crate::opt::scan_opt_spec(s.skip(3)));
        } else {
            lemma_codegen_ok_skip(s, 1);
            lemma_codegen_ok_scan_opt(s.skip(1));
            assert(codegen_ok(seq![s[0]])) by {
                assert(seq![s[0]][0] == s[0]);
            }
            lemma_codegen_ok_concat(seq![s[0]], crate::opt::scan_opt_spec(s.skip(1)));
        }
    }
}

proof fn lemma_lower_insts_push(s: Seq<Inst>, x: Inst)
    ensures
        lower_insts(s.push(x)) == lower_insts(s) + lower_inst(x),
    decreases s.len(),
{
    if s.len() == 0 {
        assert(s.push(x)[0] == x);
        assert(s.push(x).skip(1) =~= Seq::<Inst>::empty());
        assert(lower_insts(Seq::<Inst>::empty()) == Seq::<WasmOp>::empty());
        assert(lower_insts(s.push(x)) == lower_inst(x) + Seq::<WasmOp>::empty());
        assert(lower_inst(x) + Seq::<WasmOp>::empty() =~= Seq::<WasmOp>::empty() + lower_inst(x));
    } else {
        assert(s.push(x)[0] == s[0]);
        assert(s.push(x).skip(1) =~= s.skip(1).push(x));
        lemma_lower_insts_push(s.skip(1), x);
        assert(lower_insts(s.push(x)) == lower_inst(s[0]) + (lower_insts(s.skip(1))
            + lower_inst(x)));
        assert(lower_inst(s[0]) + (lower_insts(s.skip(1)) + lower_inst(x)) =~= (lower_inst(s[0])
            + lower_insts(s.skip(1))) + lower_inst(x));
    }
}

fn push_add_or_sub(ops: &mut Vec<WasmOp>, ct: usize, op: WasmOp)
    requires
        ct <= 0x7fff_ffff,
    ensures
        final(ops)@ == old(ops)@ + lower_add_or_sub(ct, op),
{
    ops.push(WasmOp::LocalGet(DP));
    ops.push(WasmOp::LocalGet(DP));
    ops.push(WasmOp::I32Load8U);
    ops.push(WasmOp::I32Const(ct as i32));
    ops.push(op);
    ops.push(WasmOp::I32Store8);
    proof {
        assert(ops@ =~= old(ops)@ + lower_add_or_sub(ct, op));
    }
}

fn push_add_or_sub_from(ops: &mut Vec<WasmOp>, ct: usize, off: i32, op: WasmOp)
    requires
        ct <= 0x7fff_ffff,
    ensures
        final(ops)@ == old(ops)@ + lower_add_or_sub_from(ct, off, op),
{
    ops.push(WasmOp::LocalGet(DP));
    ops.push(WasmOp::I32Const(off));
    ops.push(WasmOp::I32Add);
    ops.push(WasmOp::LocalGet(DP));
    ops.push(WasmOp::I32Const(off));
    ops.push(WasmOp::I32Add);
    ops.push(WasmOp::I32Load8U);
    ops.push(WasmOp::LocalGet(DP));
    ops.push(WasmOp::I32Load8U);
    if ct != 1 {
        ops.push(WasmOp::I32Const(ct as i32));
        ops.push(WasmOp::I32Mul);
    }
    ops.push(op);
    ops.push(WasmOp::I32Store8);
    proof {
        assert(ops@ =~= old(ops)@ + lower_add_or_sub_from(ct, off, op));
    }
}

fn push_move(ops: &mut Vec<WasmOp>, ct: usize, op: WasmOp)
    requires
        ct <= 0x7fff_ffff,
    ensures
        final(ops)@ == old(ops)@ + lower_move(ct, op),
{
    ops.push(WasmOp::LocalGet(DP));
    ops.push(WasmOp::I32Const(ct as i32));
    ops.push(op);
    ops.push(WasmOp::LocalSet(DP));
    proof {
        assert(ops@ =~= old(ops)@ + lower_move(ct, op));
    }
}

fn push_zero(ops: &mut Vec<WasmOp>, off: i32)
    ensures
        final(ops)@ == old(ops)@ + lower_zero(off),
{
    ops.push(WasmOp::LocalGet(DP));
    if off != 0 {
        ops.push(WasmOp::I32Const(off));
        ops.push(WasmOp::I32Add);
    }
    ops.push(WasmOp::I32Const(0));
    ops.push(WasmOp::I32Store8);
    proof {
        assert(ops@ =~= old(ops)@ + lower_zero(off));
    }
}

fn push_loop_start(ops: &mut Vec<WasmOp>)
    ensures
        final(ops)@ == old(ops)@ + lower_loop_start(),
{
    ops.push(WasmOp::Block);
    ops.push(WasmOp::Loop);
    ops.push(WasmOp::LocalGet(DP));
    ops.push(WasmOp::I32Load8U);
    ops.push(WasmOp::I32Eqz);
    ops.push(WasmOp::BrIf(1));
    proof {
        assert(ops@ =~= old(ops)@ + lower_loop_start());
    }
}

fn push_loop_end(ops: &mut Vec<WasmOp>)
    ensures
        final(ops)@ == old(ops)@ + lower_loop_end(),
{
    ops.push(WasmOp::Br(0));
    ops.push(WasmOp::End);
    ops.push(WasmOp::End);
    proof {
        assert(ops@ =~= old(ops)@ + lower_loop_end());
    }
}

fn push_simple_loop_start(ops: &mut Vec<WasmOp>, off: i32)
    ensures
        final(ops)@ == old(ops)@ + lower_simple_loop_start(off),
{
    ops.push(WasmOp::Block);
    ops.push(WasmOp::LocalGet(DP));
    if off != 0 {
        ops.push(WasmOp::I32Const(off));
        ops.push(WasmOp::I32Add);
    }
    ops.push(WasmOp::I32Load8U);
    ops.push(WasmOp::I32Eqz);
    ops.push(WasmOp::BrIf(0));
    proof {
        assert(ops@ =~= old(ops)@ + lower_simple_loop_start(off));
    }
}

fn push_simple_loop_end(ops: &mut Vec<WasmOp>)
    ensures
        final(ops)@ == old(ops)@ + lower_simple_loop_end(),
{
    ops.push(WasmOp::End);
    proof {
        assert(ops@ =~= old(ops)@ + lower_simple_loop_end());
    }
}

fn push_in(ops: &mut Vec<WasmOp>)
    ensures
        final(ops)@ == old(ops)@ + lower_in(),
{
    ops.push(WasmOp::LocalGet(DP));
    ops.push(WasmOp::Call(READ_FN));
    ops.push(WasmOp::I32Store8);
    proof {
        assert(ops@ =~= old(ops)@ + lower_in());
    }
}

fn push_out(ops: &mut Vec<WasmOp>)
    ensures
        final(ops)@ == old(ops)@ + lower_out(),
{
    ops.push(WasmOp::LocalGet(DP));
    ops.push(WasmOp::I32Load8U);
    ops.push(WasmOp::Call(WRITE_FN));
    proof {
        assert(ops@ =~= old(ops)@ + lower_out());
    }
}

#[verifier::rlimit(50)]
fn push_for_scan(ops: &mut Vec<WasmOp>, stride: i32)
    requires
        stride == 1 || stride == 2 || stride == 4,
    ensures
        final(ops)@ == old(ops)@ + lower_for_scan(stride),
{
    push_simple_loop_start(ops, 0);
    ops.push(WasmOp::Block);
    ops.push(WasmOp::Loop);
    ops.push(WasmOp::V128Const(0));
    ops.push(WasmOp::LocalGet(DP));
    ops.push(WasmOp::V128Load);
    ops.push(WasmOp::I8x16Eq);
    if stride == 2 {
        ops.push(WasmOp::V128Const(MASK_STRIDE_2));
        ops.push(WasmOp::V128And);
    } else if stride == 4 {
        ops.push(WasmOp::V128Const(MASK_STRIDE_4));
        ops.push(WasmOp::V128And);
    }
    ops.push(WasmOp::I8x16Bitmask);
    ops.push(WasmOp::I32Ctz);
    ops.push(WasmOp::LocalTee(SCRATCH));
    ops.push(WasmOp::I32Const(32));
    ops.push(WasmOp::I32Ne);
    ops.push(WasmOp::BrIf(1));
    ops.push(WasmOp::LocalGet(DP));
    ops.push(WasmOp::I32Const(16));
    ops.push(WasmOp::I32Add);
    ops.push(WasmOp::LocalSet(DP));
    ops.push(WasmOp::Br(0));
    ops.push(WasmOp::End);
    ops.push(WasmOp::End);
    ops.push(WasmOp::LocalGet(SCRATCH));
    ops.push(WasmOp::LocalGet(DP));
    ops.push(WasmOp::I32Add);
    ops.push(WasmOp::LocalSet(DP));
    push_simple_loop_end(ops);
    proof {
        assert(ops@ =~= old(ops)@ + lower_for_scan(stride));
    }
}

#[verifier::rlimit(50)]
fn push_rev_scan(ops: &mut Vec<WasmOp>, stride: i32)
    requires
        stride == -1 || stride == -2,
    ensures
        final(ops)@ == old(ops)@ + lower_rev_scan(stride),
{
    push_simple_loop_start(ops, 0);
    ops.push(WasmOp::LocalGet(DP));
    ops.push(WasmOp::I32Const(-16));
    ops.push(WasmOp::I32Add);
    ops.push(WasmOp::LocalSet(DP));
    ops.push(WasmOp::Block);
    ops.push(WasmOp::Loop);
    ops.push(WasmOp::V128Const(0));
    ops.push(WasmOp::LocalGet(DP));
    ops.push(WasmOp::V128Load);
    ops.push(WasmOp::I8x16Eq);
    if stride == -2 {
        ops.push(WasmOp::V128Const(MASK_STRIDE_2));
        ops.push(WasmOp::V128And);
    }
    ops.push(WasmOp::I8x16Bitmask);
    ops.push(WasmOp::I32Clz);
    ops.push(WasmOp::I32Const(-16));
    ops.push(WasmOp::I32Add);
    ops.push(WasmOp::LocalTee(SCRATCH));
    ops.push(WasmOp::I32Const(16));
    ops.push(WasmOp::I32Ne);
    ops.push(WasmOp::BrIf(1));
    ops.push(WasmOp::LocalGet(DP));
    ops.push(WasmOp::I32Const(-16));
    ops.push(WasmOp::I32Add);
    ops.push(WasmOp::LocalSet(DP));
    ops.push(WasmOp::Br(0));
    ops.push(WasmOp::End);
    ops.push(WasmOp::End);
    ops.push(WasmOp::LocalGet(DP));
    ops.push(WasmOp::LocalGet(SCRATCH));
    ops.push(WasmOp::I32Sub);
    ops.push(WasmOp::I32Const(15));
    ops.push(WasmOp::I32Add);
    ops.push(WasmOp::LocalSet(DP));
    push_simple_loop_end(ops);
    proof {
        assert(ops@ =~= old(ops)@ + lower_rev_scan(stride));
    }
}

/// Lowers the final IR into the complete instruction sequence of the entry
/// point's body: the data-pointer prologue, each IR instruction's exact
/// lowering in order, and the debug-termination epilogue.
pub fn lower_program(ir: &IR) -> (ops: Vec<WasmOp>)
    requires
        codegen_ok(ir@),
    ensures
        ops@ == lower_program_spec(ir@),
{
    let mut ops: Vec<WasmOp> = Vec::new();
    ops.push(WasmOp::I32Const(16));
    ops.push(WasmOp::LocalSet(DP));
    let n = ir.len();
    let mut i: usize = 0;
    proof {
        assert(ir@.take(0) =~= Seq::<Inst>::empty());
        assert(ops@ =~= lower_prologue() + lower_insts(ir@.take(0)));
    }
    while i < n
        invariant
            n == ir@.len(),
            i <= n,
            codegen_ok(ir@),
            ops@ == lower_prologue() + lower_insts(ir@.take(i as int)),
        decreases n - i,
    {
        proof {
            assert(codegen_inst_ok(ir@[i as int]));
        }
        match ir[i] {
            Inst::Add(ct) => push_add_or_sub(&mut ops, ct, WasmOp::I32Add),
            Inst::Sub(ct) => push_add_or_sub(&mut ops, ct, WasmOp::I32Sub),
            Inst::AddFrom(ct, off) => push_add_or_sub_from(&mut ops, ct, off, WasmOp::I32Add),
            Inst::SubFrom(ct, off) => push_add_or_sub_from(&mut ops, ct, off, WasmOp::I32Sub),
            Inst::Right(ct) => push_move(&mut ops, ct, WasmOp::I32Add),
            Inst::Left(ct) => push_move(&mut ops, ct, WasmOp::I32Sub),
            Inst::In => push_in(&mut ops),
            Inst::Out => push_out(&mut ops),
            Inst::LoopStart => push_loop_start(&mut ops),
            Inst::LoopEnd => push_loop_end(&mut ops),
            Inst::SimpleLoopStart(off) => push_simple_loop_start(&mut ops, off),
            Inst::SimpleLoopEnd => push_simple_loop_end(&mut ops),
            Inst::Zero(off) => push_zero(&mut ops, off),
            Inst::Scan(stride) => {
                if stride > 0 {
                    push_for_scan(&mut ops, stride);
                } else {
                    push_rev_scan(&mut ops, stride);
                }
            },
        }
        proof {
            lemma_lower_insts_push(ir@.take(i as int), ir@[i as int]);
            assert(ir@.take(i + 1) =~= ir@.take(i as int).push(ir@[i as int]));
            assert(ops@ =~= lower_prologue() + lower_insts(ir@.take(i + 1)));
        }
        i = i + 1;
    }
    ops.push(WasmOp::LocalGet(DP));
    ops.push(WasmOp::LocalGet(DP));
    ops.push(WasmOp::I32Load8U);
    ops.push(WasmOp::Call(DEBUG_FN));
    ops.push(WasmOp::End);
    proof {
        assert(ir@.take(n as int) =~= ir@);
        assert(ops@ =~= lower_program_spec(ir@));
    }
    ops
}

} // verus!
