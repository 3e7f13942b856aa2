//! A compiler for an eight-instruction pointer/byte-machine language,
//! targeting a stack-based virtual machine with linear memory: parser,
//! multi-pass optimizer (run-length folding, dead-loop-to-zero rewriting,
//! strength reduction, vectorized-scan recognition), and code generator.

use vstd::prelude::*;

pub mod backend;
pub mod equiv;
pub mod ir;
pub mod opt;
pub mod sem;
pub mod wasm;

pub use backend::create_wasm;
pub use ir::inst_combine;
pub use ir::parse;
pub use ir::Inst;
pub use ir::IR;
pub use opt::cell_zero;
pub use opt::get_inner_loops;
pub use opt::is_simple;
pub use opt::opt_simple_loops;
pub use opt::scan_opt;

use ir::{
    balanced, combine_spec, lemma_combine_sum_counts, lemma_sum_counts_le_len, parse_spec,
    run_depth,
};
use wasm::{
    lemma_codegen_ok_cell_zero, lemma_codegen_ok_combine, lemma_codegen_ok_opt_loops,
    lemma_codegen_ok_parse, lemma_codegen_ok_scan_opt, lemma_sum_counts_cell_zero,
};

verus! {

/// How a compilation can fail: the program itself is bad (unbalanced loop
/// brackets, or too large for 32-bit code offsets), or the compiler produced
/// a module the external verifier rejected --- a compiler defect, never a
/// user error.
#[derive(PartialEq, Eq, Structural, Clone, Copy, Debug)]
pub enum CompileError {
    /// The source has an unmatched `[` or `]`.
    MalformedProgram,
    /// The source is too large for 32-bit code offsets.
    ProgramTooLarge,
    /// The emitted module failed structural validation.
    ModuleRejected,
}

/// Reports whether every `[` has its `]`: brackets open and close in order
/// and none is left open at the end.
pub fn check_brackets(ir: &IR) -> (r: bool)
    ensures
        r == balanced(ir@),
{
    let n = ir.len();
    let mut depth: usize = 0;
    let mut i: usize = 0;
    proof {
        assert(ir@.skip(0) =~= ir@);
    }
    while i < n
        invariant
            n == ir@.len(),
            i <= n,
            depth <= i,
            run_depth(ir@, 0) == run_depth(ir@.skip(i as int), depth as int),
        decreases n - i,
    {
        proof {
            assert(ir@.skip(i as int)[0] == ir@[i as int]);
            assert(ir@.skip(i as int).skip(1) =~= ir@.skip(i + 1));
        }
        let ins = ir[i];
        if ins == Inst::LoopStart {
            depth = depth + 1;
        } else if ins == Inst::LoopEnd {
            if depth == 0 {
                proof {
                    assert(run_depth(ir@.skip(i + 1), -1) is None);
                    assert(run_depth(ir@, 0) is None);
                }
                return false;
            }
            depth = depth - 1;
        }
        i = i + 1;
    }
    proof {
        assert(ir@.skip(n as int) =~= Seq::<Inst>::empty());
        assert(run_depth(ir@, 0) == Some(depth as int));
    }
    depth == 0
}

/// What the optimization pipeline produces from the source text, with each
/// pass independently toggleable.
pub open spec fn pipeline_spec(s: Seq<char>, cz: bool, slo: bool, so: bool) -> Seq<Inst> {
    let ir0 = combine_spec(parse_spec(s));
    let ir1 = if cz {
        opt::cell_zero_spec(ir0)
    } else {
        ir0
    };
    let ir2 = if slo {
        opt::opt_loops_spec(ir1)
    } else {
        ir1
    };
    if so {
        opt::scan_opt_spec(ir2)
    } else {
        ir2
    }
}

/// Bracket balance holds at every pass boundary: whatever passes are enabled,
/// a balanced parse stays balanced through the whole pipeline.
pub proof fn lemma_pipeline_preserves_balance(s: Seq<char>, cz: bool, slo: bool, so: bool)
    requires
        balanced(parse_spec(s)),
    ensures
        balanced(pipeline_spec(s, cz, slo, so)),
{
    let ir0 = combine_spec(parse_spec(s));
    ir::lemma_combine_preserves_depth(parse_spec(s), 0);
    let ir1 = if cz {
        opt::cell_zero_spec(ir0)
    } else {
        ir0
    };
    if cz {
        opt::lemma_cell_zero_preserves_depth(ir0, 0);
    }
    let ir2 = if slo {
        opt::opt_loops_spec(ir1)
    } else {
        ir1
    };
    if slo {
        opt::lemma_opt_loops_preserves_depth(ir1, 0);
    }
    if so {
        opt::lemma_scan_opt_preserves_depth(ir2, 0);
    }
}

/// Compiles source text to a binary module: parse, fold runs, then the three
/// optional rewrites in their required order (cell-zero before strength
/// reduction before scan recognition), then code generation and structural
/// validation. Oversized programs and unbalanced brackets are reported as
/// the user's errors; on every other input the result is pinned down: the
/// bytes are exactly the module encoding of the pipeline's lowering, handed
/// out exactly when the external verifier accepts that encoding (a rejection
/// is the compiler's own defect, never the user's).
pub fn compile(
    program: &str,
    do_cell_zero_opt: bool,
    do_simple_loop_opt: bool,
    do_scan_opt: bool,
) -> (r: Result<Vec<u8>, CompileError>)
    ensures
        r == Err::<Vec<u8>, CompileError>(CompileError::ProgramTooLarge) <==> program@.len()
            > 0x7fff_ffff,
        program@.len() <= 0x7fff_ffff ==> (r == Err::<Vec<u8>, CompileError>(
            CompileError::MalformedProgram,
        ) <==> !balanced(parse_spec(program@))),
        program@.len() <= 0x7fff_ffff && balanced(parse_spec(program@)) ==> (r is Ok
            <==> backend::wasm_valid(
            backend::module_bytes(
                wasm::lower_program_spec(
                    pipeline_spec(program@, do_cell_zero_opt, do_simple_loop_opt, do_scan_opt),
                ),
            ),
        )),
        match r {
            Ok(bytes) => bytes@ == backend::module_bytes(
                wasm::lower_program_spec(
                    pipeline_spec(program@, do_cell_zero_opt, do_simple_loop_opt, do_scan_opt),
                ),
            ) && backend::wasm_valid(bytes@),
            Err(e) => e == CompileError::ProgramTooLarge || e == CompileError::MalformedProgram
                || e == CompileError::ModuleRejected,
        },
{
    let text = program.to_string();
    if text.unicode_len() > 0x7fff_ffff {
        return Err(CompileError::ProgramTooLarge);
    }
    let parsed = parse(&text);
    if !check_brackets(&parsed) {
        return Err(CompileError::MalformedProgram);
    }
    proof {
        lemma_codegen_ok_parse(program@);
        lemma_sum_counts_le_len(parse_spec(program@));
        lemma_combine_sum_counts(parse_spec(program@));
        lemma_codegen_ok_combine(parse_spec(program@));
    }
    let mut ir = inst_combine(&parsed);
    if do_cell_zero_opt {
        proof {
            lemma_codegen_ok_cell_zero(combine_spec(parse_spec(program@)));
            lemma_sum_counts_cell_zero(combine_spec(parse_spec(program@)));
        }
        ir = cell_zero(&ir);
    }
    if do_simple_loop_opt {
        proof {
            lemma_codegen_ok_opt_loops(ir@);
        }
        ir = opt_simple_loops(&ir);
    }
    if do_scan_opt {
        proof {
            lemma_codegen_ok_scan_opt(ir@);
        }
        ir = scan_opt(&ir);
    }
    proof {
        assert(ir@ == pipeline_spec(program@, do_cell_zero_opt, do_simple_loop_opt, do_scan_opt));
    }
    create_wasm(&ir)
}

} // verus!
