//! The optimizer's preservation laws, stated against the IR semantics: the
//! rewritten forms compute what the bracketed originals compute.

use vstd::prelude::*;

use crate::ir::Inst;
use crate::sem::{
    lemma_run_win_frame, match_end, match_simple_end, run, run_win, valid, wrap_add, wrap_sub,
    State,
};

verus! {

/// A rightward scan loop and its vectorizable `Scan` form are the same
/// program wherever they stand before a common rest: for every starting
/// state and every fuel budget, `[` `>`*ct* `]` `rest` and `Scan(ct)` `rest`
/// either both get stuck or both halt, in the same state.
pub proof fn lemma_scan_right_equiv(ct: usize, rest: Seq<Inst>, st: State, fuel: nat)
    requires
        ct <= 0x7fff_ffff,
    ensures
        run(seq![Inst::LoopStart, Inst::Right(ct), Inst::LoopEnd] + rest, st, fuel) == run(
            seq![Inst::Scan(ct as i32)] + rest,
            st,
            fuel,
        ),
    decreases fuel,
{
    let w1 = seq![Inst::LoopStart, Inst::Right(ct), Inst::LoopEnd];
    let w2 = seq![Inst::Scan(ct as i32)];
    let p1 = w1 + rest;
    let p2 = w2 + rest;
    let n1 = p1.len() as int;
    let n2 = p2.len() as int;
    assert(p1[0] == Inst::LoopStart && p1[1] == Inst::Right(ct) && p1[2] == Inst::LoopEnd);
    assert(p2[0] == Inst::Scan(ct as i32));
    assert(ct as i32 as int == ct as int);
    assert(match_end(p1, 2, n1, 0) == Some(2int));
    assert(match_end(p1, 1, n1, 0) == Some(2int));
    if !valid(st) {
        assert(run(p1, st, fuel) is None);
        assert(run(p2, st, fuel) is None);
    } else if st.mem[st.ptr] == 0 {
        lemma_run_win_frame(p1, 3, n1, 3, n1, st, fuel);
        lemma_run_win_frame(p2, 1, n2, 1, n2, st, fuel);
        assert(p1.subrange(3, n1) =~= rest);
        assert(p2.subrange(1, n2) =~= rest);
        assert(run(p1, st, fuel) == run_win(rest, 0, rest.len() as int, st, fuel));
        assert(run(p2, st, fuel) == run_win(rest, 0, rest.len() as int, st, fuel));
    } else if fuel == 0 {
        assert(run(p1, st, fuel) is None);
        assert(run(p2, st, fuel) is None);
    } else {
        let f1 = (fuel - 1) as nat;
        if 0 <= st.ptr + ct < st.mem.len() {
            let st2 = State { ptr: st.ptr + ct, ..st };
            assert(run_win(p1, 2, 2, st2, f1) == Some(st2));
            assert(run_win(p1, 1, 2, st, f1) == Some(st2));
            lemma_scan_right_equiv(ct, rest, st2, f1);
            assert(run(p1, st, fuel) == run_win(p1, 0, n1, st2, f1));
            assert(run(p2, st, fuel) == run_win(p2, 0, n2, st2, f1));
        } else {
            assert(run_win(p1, 1, 2, st, f1) is None);
            assert(run(p1, st, fuel) is None);
            assert(run(p2, st, fuel) is None);
        }
    }
}

/// The leftward counterpart: `[` `<`*ct* `]` `rest` and `Scan(-ct)` `rest`
/// are the same program for every starting state and fuel budget.
pub proof fn lemma_scan_left_equiv(ct: usize, rest: Seq<Inst>, st: State, fuel: nat)
    requires
        ct <= 0x7fff_ffff,
    ensures
        run(seq![Inst::LoopStart, Inst::Left(ct), Inst::LoopEnd] + rest, st, fuel) == run(
            seq![Inst::Scan((0 - ct as int) as i32)] + rest,
            st,
            fuel,
        ),
    decreases fuel,
{
    let w1 = seq![Inst::LoopStart, Inst::Left(ct), Inst::LoopEnd];
    let w2 = seq![Inst::Scan((0 - ct as int) as i32)];
    let p1 = w1 + rest;
    let p2 = w2 + rest;
    let n1 = p1.len() as int;
    let n2 = p2.len() as int;
    assert(p1[0] == Inst::LoopStart && p1[1] == Inst::Left(ct) && p1[2] == Inst::LoopEnd);
    assert(p2[0] == Inst::Scan((0 - ct as int) as i32));
    assert(((0 - ct as int) as i32) as int == 0 - ct as int);
    assert(match_end(p1, 2, n1, 0) == Some(2int));
    assert(match_end(p1, 1, n1, 0) == Some(2int));
    if !valid(st) {
        assert(run(p1, st, fuel) is None);
        assert(run(p2, st, fuel) is None);
    } else if st.mem[st.ptr] == 0 {
        lemma_run_win_frame(p1, 3, n1, 3, n1, st, fuel);
        lemma_run_win_frame(p2, 1, n2, 1, n2, st, fuel);
        assert(p1.subrange(3, n1) =~= rest);
        assert(p2.subrange(1, n2) =~= rest);
        assert(run(p1, st, fuel) == run_win(rest, 0, rest.len() as int, st, fuel));
        assert(run(p2, st, fuel) == run_win(rest, 0, rest.len() as int, st, fuel));
    } else if fuel == 0 {
        assert(run(p1, st, fuel) is None);
        assert(run(p2, st, fuel) is None);
    } else {
        let f1 = (fuel - 1) as nat;
        if 0 <= st.ptr - ct < st.mem.len() {
            let st2 = State { ptr: st.ptr - ct, ..st };
            assert(run_win(p1, 2, 2, st2, f1) == Some(st2));
            assert(run_win(p1, 1, 2, st, f1) == Some(st2));
            lemma_scan_left_equiv(ct, rest, st2, f1);
            assert(run(p1, st, fuel) == run_win(p1, 0, n1, st2, f1));
            assert(run(p2, st, fuel) == run_win(p2, 0, n2, st2, f1));
        } else {
            assert(run_win(p1, 1, 2, st, f1) is None);
            assert(run(p1, st, fuel) is None);
            assert(run(p2, st, fuel) is None);
        }
    }
}

/// Replacing everything after a leading non-marker instruction by a
/// run-equivalent program leaves the run unchanged: such an instruction
/// steps straight into the rest.
proof fn lemma_head_congruence(x: Inst, r1: Seq<Inst>, r2: Seq<Inst>, st: State, fuel: nat)
    requires
        !(x is LoopStart),
        !(x is LoopEnd),
        !(x is SimpleLoopStart),
        !(x is SimpleLoopEnd),
        forall|st2: State, f2: nat| #[trigger] run(r1, st2, f2) == run(r2, st2, f2),
    ensures
        run(seq![x] + r1, st, fuel) == run(seq![x] + r2, st, fuel),
    decreases fuel,
{
    let p1 = seq![x] + r1;
    let p2 = seq![x] + r2;
    let n1 = p1.len() as int;
    let n2 = p2.len() as int;
    assert(p1[0] == x && p2[0] == x);
    assert(p1.subrange(1, n1) =~= r1);
    assert(p2.subrange(1, n2) =~= r2);
    match x {
        Inst::Add(ct) => {
            if valid(st) {
                let st2 = State {
                    mem: st.mem.update(st.ptr, wrap_add(st.mem[st.ptr], ct as int)),
                    ..st
                };
                lemma_run_win_frame(p1, 1, n1, 1, n1, st2, fuel);
                lemma_run_win_frame(p2, 1, n2, 1, n2, st2, fuel);
                assert(run(r1, st2, fuel) == run(r2, st2, fuel));
                assert(run_win(p1, 1, n1, st2, fuel) == run(r1, st2, fuel));
                assert(run_win(p2, 1, n2, st2, fuel) == run(r2, st2, fuel));
            }
        },
        Inst::Sub(ct) => {
            if valid(st) {
                let st2 = State {
                    mem: st.mem.update(st.ptr, wrap_sub(st.mem[st.ptr], ct as int)),
                    ..st
                };
                lemma_run_win_frame(p1, 1, n1, 1, n1, st2, fuel);
                lemma_run_win_frame(p2, 1, n2, 1, n2, st2, fuel);
                assert(run(r1, st2, fuel) == run(r2, st2, fuel));
                assert(run_win(p1, 1, n1, st2, fuel) == run(r1, st2, fuel));
                assert(run_win(p2, 1, n2, st2, fuel) == run(r2, st2, fuel));
            }
        },
        Inst::Right(ct) => {
            if 0 <= st.ptr + ct < st.mem.len() {
                let st2 = State { ptr: st.ptr + ct, ..st };
                lemma_run_win_frame(p1, 1, n1, 1, n1, st2, fuel);
                lemma_run_win_frame(p2, 1, n2, 1, n2, st2, fuel);
                assert(run(r1, st2, fuel) == run(r2, st2, fuel));
                assert(run_win(p1, 1, n1, st2, fuel) == run(r1, st2, fuel));
                assert(run_win(p2, 1, n2, st2, fuel) == run(r2, st2, fuel));
            }
        },
        Inst::Left(ct) => {
            if 0 <= st.ptr - ct < st.mem.len() {
                let st2 = State { ptr: st.ptr - ct, ..st };
                lemma_run_win_frame(p1, 1, n1, 1, n1, st2, fuel);
                lemma_run_win_frame(p2, 1, n2, 1, n2, st2, fuel);
                assert(run(r1, st2, fuel) == run(r2, st2, fuel));
                assert(run_win(p1, 1, n1, st2, fuel) == run(r1, st2, fuel));
                assert(run_win(p2, 1, n2, st2, fuel) == run(r2, st2, fuel));
            }
        },
        Inst::AddFrom(ct, off) => {
            if valid(st) && 0 <= st.ptr + off < st.mem.len() {
                let q = st.ptr + off;
                let st2 = State {
                    mem: st.mem.update(q, wrap_add(st.mem[q], ct * st.mem[st.ptr])),
                    ..st
                };
                lemma_run_win_frame(p1, 1, n1, 1, n1, st2, fuel);
                lemma_run_win_frame(p2, 1, n2, 1, n2, st2, fuel);
                assert(run(r1, st2, fuel) == run(r2, st2, fuel));
                assert(run_win(p1, 1, n1, st2, fuel) == run(r1, st2, fuel));
                assert(run_win(p2, 1, n2, st2, fuel) == run(r2, st2, fuel));
            }
        },
        Inst::SubFrom(ct, off) => {
            if valid(st) && 0 <= st.ptr + off < st.mem.len() {
                let q = st.ptr + off;
                let st2 = State {
                    mem: st.mem.update(q, wrap_sub(st.mem[q], ct * st.mem[st.ptr])),
                    ..st
                };
                lemma_run_win_frame(p1, 1, n1, 1, n1, st2, fuel);
                lemma_run_win_frame(p2, 1, n2, 1, n2, st2, fuel);
                assert(run(r1, st2, fuel) == run(r2, st2, fuel));
                assert(run_win(p1, 1, n1, st2, fuel) == run(r1, st2, fuel));
                assert(run_win(p2, 1, n2, st2, fuel) == run(r2, st2, fuel));
            }
        },
        Inst::Zero(off) => {
            if 0 <= st.ptr + off < st.mem.len() {
                let st2 = State { mem: st.mem.update(st.ptr + off, 0u8), ..st };
                lemma_run_win_frame(p1, 1, n1, 1, n1, st2, fuel);
                lemma_run_win_frame(p2, 1, n2, 1, n2, st2, fuel);
                assert(run(r1, st2, fuel) == run(r2, st2, fuel));
                assert(run_win(p1, 1, n1, st2, fuel) == run(r1, st2, fuel));
                assert(run_win(p2, 1, n2, st2, fuel) == run(r2, st2, fuel));
            }
        },
        Inst::In => {
            if valid(st) && st.input.len() > 0 {
                let st2 = State {
                    mem: st.mem.update(st.ptr, st.input[0]),
                    input: st.input.skip(1),
                    ..st
                };
                lemma_run_win_frame(p1, 1, n1, 1, n1, st2, fuel);
                lemma_run_win_frame(p2, 1, n2, 1, n2, st2, fuel);
                assert(run(r1, st2, fuel) == run(r2, st2, fuel));
                assert(run_win(p1, 1, n1, st2, fuel) == run(r1, st2, fuel));
                assert(run_win(p2, 1, n2, st2, fuel) == run(r2, st2, fuel));
            }
        },
        Inst::Out => {
            if valid(st) {
                let st2 = State { output: st.output.push(st.mem[st.ptr]), ..st };
                lemma_run_win_frame(p1, 1, n1, 1, n1, st2, fuel);
                lemma_run_win_frame(p2, 1, n2, 1, n2, st2, fuel);
                assert(run(r1, st2, fuel) == run(r2, st2, fuel));
                assert(run_win(p1, 1, n1, st2, fuel) == run(r1, st2, fuel));
                assert(run_win(p2, 1, n2, st2, fuel) == run(r2, st2, fuel));
            }
        },
        Inst::Scan(stride) => {
            if !valid(st) {
            } else if st.mem[st.ptr] == 0 {
                lemma_run_win_frame(p1, 1, n1, 1, n1, st, fuel);
                lemma_run_win_frame(p2, 1, n2, 1, n2, st, fuel);
                assert(run(r1, st, fuel) == run(r2, st, fuel));
                assert(run_win(p1, 1, n1, st, fuel) == run(r1, st, fuel));
                assert(run_win(p2, 1, n2, st, fuel) == run(r2, st, fuel));
            } else if fuel == 0 {
            } else if 0 <= st.ptr + stride < st.mem.len() {
                let st2 = State { ptr: st.ptr + stride, ..st };
                lemma_head_congruence(x, r1, r2, st2, (fuel - 1) as nat);
            }
        },
        _ => {},
    }
}

/// A program whose loops are all supported scan windows: straight-line
/// instructions and `[` move `]` windows only, with no other loop or region
/// marker.
pub open spec fn scan_flat(s: Seq<Inst>) -> bool
    decreases s.len(),
{
    if s.len() == 0 {
        true
    } else if crate::opt::scan_match(s) {
        scan_flat(s.skip(3))
    } else if s[0] is LoopStart || s[0] is LoopEnd || s[0] is SimpleLoopStart || s[0]
        is SimpleLoopEnd {
        false
    } else {
        scan_flat(s.skip(1))
    }
}

/// Scan recognition preserves semantics at whole-program scale on flat
/// programs: for every starting state and every fuel budget, the pass's
/// output and its input either both get stuck or both halt, in the same
/// state.
pub proof fn lemma_scan_pass_congruence(s: Seq<Inst>, st: State, fuel: nat)
    requires
        scan_flat(s),
    ensures
        run(crate::opt::scan_opt_spec(s), st, fuel) == run(s, st, fuel),
    decreases s.len(),
{
    if s.len() == 0 {
        assert(crate::opt::scan_opt_spec(s) =~= s);
    } else if crate::opt::scan_match(s) {
        let mov = s[1];
        let rest = s.skip(3);
        let stride = crate::opt::stride_of(mov);
        assert(s =~= seq![Inst::LoopStart, mov, Inst::LoopEnd] + rest);
        assert forall|st2: State, f2: nat| #[trigger] run(rest, st2, f2) == run(
            crate::opt::scan_opt_spec(rest),
            st2,
            f2,
        ) by {
            lemma_scan_pass_congruence(rest, st2, f2);
        }
        match mov {
            Inst::Right(ct) => {
                lemma_scan_right_equiv(ct, rest, st, fuel);
                assert(stride == ct as i32);
            },
            Inst::Left(ct) => {
                lemma_scan_left_equiv(ct, rest, st, fuel);
                assert(stride == (0 - ct as int) as i32);
            },
            _ => {
                assert(false);
            },
        }
        assert(run(s, st, fuel) == run(seq![Inst::Scan(stride)] + rest, st, fuel));
        lemma_head_congruence(
            Inst::Scan(stride),
            rest,
            crate::opt::scan_opt_spec(rest),
            st,
            fuel,
        );
        assert(crate::opt::scan_opt_spec(s) == seq![Inst::Scan(stride)]
            + crate::opt::scan_opt_spec(rest));
    } else {
        let rest = s.skip(1);
        assert(s =~= seq![s[0]] + rest);
        assert forall|st2: State, f2: nat| #[trigger] run(rest, st2, f2) == run(
            crate::opt::scan_opt_spec(rest),
            st2,
            f2,
        ) by {
            lemma_scan_pass_congruence(rest, st2, f2);
        }
        lemma_head_congruence(s[0], rest, crate::opt::scan_opt_spec(rest), st, fuel);
        assert(crate::opt::scan_opt_spec(s) == seq![s[0]] + crate::opt::scan_opt_spec(rest));
    }
}

/// The halting-direction counterpart of head congruence: if the replacement
/// rest agrees with the old one whenever the old one halts, the whole
/// program agrees whenever it halts.
proof fn lemma_head_congruence_halting(x: Inst, r1: Seq<Inst>, r2: Seq<Inst>, st: State, fuel: nat)
    requires
        !(x is LoopStart),
        !(x is LoopEnd),
        !(x is SimpleLoopStart),
        !(x is SimpleLoopEnd),
        forall|st2: State, f2: nat|
            #[trigger] run(r1, st2, f2) is Some ==> run(r2, st2, f2) == run(r1, st2, f2),
        run(seq![x] + r1, st, fuel) is Some,
    ensures
        run(seq![x] + r2, st, fuel) == run(seq![x] + r1, st, fuel),
    decreases fuel,
{
    let p1 = seq![x] + r1;
    let p2 = seq![x] + r2;
    let n1 = p1.len() as int;
    let n2 = p2.len() as int;
    assert(p1[0] == x && p2[0] == x);
    assert(p1.subrange(1, n1) =~= r1);
    assert(p2.subrange(1, n2) =~= r2);
    match x {
        Inst::Add(ct) => {
            let st2 = State {
                mem: st.mem.update(st.ptr, wrap_add(st.mem[st.ptr], ct as int)),
                ..st
            };
            lemma_run_win_frame(p1, 1, n1, 1, n1, st2, fuel);
            lemma_run_win_frame(p2, 1, n2, 1, n2, st2, fuel);
            assert(run(r1, st2, fuel) is Some);
        },
        Inst::Sub(ct) => {
            let st2 = State {
                mem: st.mem.update(st.ptr, wrap_sub(st.mem[st.ptr], ct as int)),
                ..st
            };
            lemma_run_win_frame(p1, 1, n1, 1, n1, st2, fuel);
            lemma_run_win_frame(p2, 1, n2, 1, n2, st2, fuel);
            assert(run(r1, st2, fuel) is Some);
        },
        Inst::Right(ct) => {
            let st2 = State { ptr: st.ptr + ct, ..st };
            lemma_run_win_frame(p1, 1, n1, 1, n1, st2, fuel);
            lemma_run_win_frame(p2, 1, n2, 1, n2, st2, fuel);
            assert(run(r1, st2, fuel) is Some);
        },
        Inst::Left(ct) => {
            let st2 = State { ptr: st.ptr - ct, ..st };
            lemma_run_win_frame(p1, 1, n1, 1, n1, st2, fuel);
            lemma_run_win_frame(p2, 1, n2, 1, n2, st2, fuel);
            assert(run(r1, st2, fuel) is Some);
        },
        Inst::AddFrom(ct, off) => {
            let q = st.ptr + off;
            let st2 = State { mem: st.mem.update(q, wrap_add(st.mem[q], ct * st.mem[st.ptr])), ..st };
            lemma_run_win_frame(p1, 1, n1, 1, n1, st2, fuel);
            lemma_run_win_frame(p2, 1, n2, 1, n2, st2, fuel);
            assert(run(r1, st2, fuel) is Some);
        },
        Inst::SubFrom(ct, off) => {
            let q = st.ptr + off;
            let st2 = State { mem: st.mem.update(q, wrap_sub(st.mem[q], ct * st.mem[st.ptr])), ..st };
            lemma_run_win_frame(p1, 1, n1, 1, n1, st2, fuel);
            lemma_run_win_frame(p2, 1, n2, 1, n2, st2, fuel);
            assert(run(r1, st2, fuel) is Some);
        },
        Inst::Zero(off) => {
            let st2 = State { mem: st.mem.update(st.ptr + off, 0u8), ..st };
            lemma_run_win_frame(p1, 1, n1, 1, n1, st2, fuel);
            lemma_run_win_frame(p2, 1, n2, 1, n2, st2, fuel);
            assert(run(r1, st2, fuel) is Some);
        },
        Inst::In => {
            let st2 = State {
                mem: st.mem.update(st.ptr, st.input[0]),
                input: st.input.skip(1),
                ..st
            };
            lemma_run_win_frame(p1, 1, n1, 1, n1, st2, fuel);
            lemma_run_win_frame(p2, 1, n2, 1, n2, st2, fuel);
            assert(run(r1, st2, fuel) is Some);
        },
        Inst::Out => {
            let st2 = State { output: st.output.push(st.mem[st.ptr]), ..st };
            lemma_run_win_frame(p1, 1, n1, 1, n1, st2, fuel);
            lemma_run_win_frame(p2, 1, n2, 1, n2, st2, fuel);
            assert(run(r1, st2, fuel) is Some);
        },
        Inst::Scan(stride) => {
            if st.mem[st.ptr] == 0 {
                lemma_run_win_frame(p1, 1, n1, 1, n1, st, fuel);
                lemma_run_win_frame(p2, 1, n2, 1, n2, st, fuel);
                assert(run(r1, st, fuel) is Some);
            } else {
                let st2 = State { ptr: st.ptr + stride, ..st };
                lemma_head_congruence_halting(x, r1, r2, st2, (fuel - 1) as nat);
            }
        },
        _ => {},
    }
}

/// A program whose loops are all decrement-to-zero windows: straight-line
/// instructions and `[` `+`/`-` `]` windows only, with no other loop or
/// region marker.
pub open spec fn cz_flat(s: Seq<Inst>) -> bool
    decreases s.len(),
{
    if s.len() == 0 {
        true
    } else if crate::opt::cz_match(s) {
        cz_flat(s.skip(3))
    } else if s[0] is LoopStart || s[0] is LoopEnd || s[0] is SimpleLoopStart || s[0]
        is SimpleLoopEnd {
        false
    } else {
        cz_flat(s.skip(1))
    }
}

/// Cell-zero rewriting preserves semantics at whole-program scale on flat
/// programs: whenever the input halts, the pass's output halts under the
/// same budget, in the same state.
pub proof fn lemma_cell_zero_pass_congruence(s: Seq<Inst>, st: State, fuel: nat)
    requires
        cz_flat(s),
        run(s, st, fuel) is Some,
    ensures
        run(crate::opt::cell_zero_spec(s), st, fuel) == run(s, st, fuel),
    decreases s.len(),
{
    if s.len() == 0 {
        assert(crate::opt::cell_zero_spec(s) =~= s);
    } else if crate::opt::cz_match(s) {
        let mid = s[1];
        let rest = s.skip(3);
        assert(s =~= seq![Inst::LoopStart, mid, Inst::LoopEnd] + rest);
        assert(run(seq![Inst::LoopStart, mid, Inst::LoopEnd] + rest, st, fuel) == run(
            s,
            st,
            fuel,
        ));
        lemma_cell_zero_ctx(mid, rest, st, fuel);
        assert forall|st2: State, f2: nat| #[trigger] run(rest, st2, f2) is Some implies run(
            crate::opt::cell_zero_spec(rest),
            st2,
            f2,
        ) == run(rest, st2, f2) by {
            lemma_cell_zero_pass_congruence(rest, st2, f2);
        }
        lemma_head_congruence_halting(
            Inst::Zero(0),
            rest,
            crate::opt::cell_zero_spec(rest),
            st,
            fuel,
        );
        assert(crate::opt::cell_zero_spec(s) == seq![Inst::Zero(0)] + crate::opt::cell_zero_spec(
            rest,
        ));
    } else {
        let rest = s.skip(1);
        assert(s =~= seq![s[0]] + rest);
        assert(run(seq![s[0]] + rest, st, fuel) == run(s, st, fuel));
        assert forall|st2: State, f2: nat| #[trigger] run(rest, st2, f2) is Some implies run(
            crate::opt::cell_zero_spec(rest),
            st2,
            f2,
        ) == run(rest, st2, f2) by {
            lemma_cell_zero_pass_congruence(rest, st2, f2);
        }
        lemma_head_congruence_halting(s[0], rest, crate::opt::cell_zero_spec(rest), st, fuel);
        assert(crate::opt::cell_zero_spec(s) == seq![s[0]] + crate::opt::cell_zero_spec(rest));
    }
}

/// The state a zero-store leaves behind: the current cell cleared, everything
/// else untouched.
pub open spec fn zeroed(st: State) -> State {
    State { mem: st.mem.update(st.ptr, 0u8), ..st }
}

/// `Zero(0)` always halts, in exactly the zeroed state.
pub proof fn lemma_run_zero(st: State, fuel: nat)
    requires
        valid(st),
    ensures
        run(seq![Inst::Zero(0)], st, fuel) == Some(zeroed(st)),
{
    let p = seq![Inst::Zero(0)];
    assert(p.len() == 1 && p[0] == Inst::Zero(0));
    assert(run_win(p, 1, 1, zeroed(st), fuel) == Some(zeroed(st)));
}

/// Whenever a decrement-to-zero loop `[` `+`/`-` with any count `]` halts, it
/// halts in the zeroed state: the same state `Zero(0)` reaches directly, with
/// the same pointer, input and output.
pub proof fn lemma_cell_zero_sound(mid: Inst, st: State, fuel: nat, st2: State)
    requires
        mid is Add || mid is Sub,
        run(seq![Inst::LoopStart, mid, Inst::LoopEnd], st, fuel) == Some(st2),
    ensures
        valid(st),
        st2 == zeroed(st),
    decreases fuel,
{
    let p1 = seq![Inst::LoopStart, mid, Inst::LoopEnd];
    assert(p1.len() == 3 && p1[0] == Inst::LoopStart && p1[1] == mid && p1[2] == Inst::LoopEnd);
    assert(match_end(p1, 2, 3, 0) == Some(2int));
    assert(match_end(p1, 1, 3, 0) == Some(2int));
    assert(valid(st));
    if st.mem[st.ptr] == 0 {
        assert(run_win(p1, 3, 3, st, fuel) == Some(st));
        assert(st2 == st);
        assert(st.mem.update(st.ptr, 0u8) =~= st.mem);
        assert(zeroed(st) == st2);
    } else {
        assert(fuel > 0);
        let f1 = (fuel - 1) as nat;
        let v = st.mem[st.ptr];
        let w = if mid is Add {
            wrap_add(v, crate::ir::count_of(mid))
        } else {
            wrap_sub(v, crate::ir::count_of(mid))
        };
        let st1 = State { mem: st.mem.update(st.ptr, w), ..st };
        assert(run_win(p1, 2, 2, st1, f1) == Some(st1));
        assert(run_win(p1, 1, 2, st, f1) == Some(st1));
        assert(run_win(p1, 0, 3, st1, f1) == Some(st2));
        lemma_cell_zero_sound(mid, st1, f1, st2);
        assert(st1.mem.update(st1.ptr, 0u8) =~= st.mem.update(st.ptr, 0u8));
        assert(zeroed(st1) == zeroed(st));
    }
}

/// The cell-zero rewrite is sound in any surrounding program: whenever the
/// decrement-to-zero loop followed by any rest halts, the zero-store followed
/// by the same rest halts in the same state under the same budget.
pub proof fn lemma_cell_zero_ctx(mid: Inst, rest: Seq<Inst>, st: State, fuel: nat)
    requires
        mid is Add || mid is Sub,
        run(seq![Inst::LoopStart, mid, Inst::LoopEnd] + rest, st, fuel) is Some,
    ensures
        run(seq![Inst::Zero(0)] + rest, st, fuel) == run(
            seq![Inst::LoopStart, mid, Inst::LoopEnd] + rest,
            st,
            fuel,
        ),
    decreases fuel,
{
    let p1 = seq![Inst::LoopStart, mid, Inst::LoopEnd] + rest;
    let p2 = seq![Inst::Zero(0)] + rest;
    let n1 = p1.len() as int;
    let n2 = p2.len() as int;
    assert(p1[0] == Inst::LoopStart && p1[1] == mid && p1[2] == Inst::LoopEnd);
    assert(p2[0] == Inst::Zero(0));
    assert(match_end(p1, 2, n1, 0) == Some(2int));
    assert(match_end(p1, 1, n1, 0) == Some(2int));
    assert(p1.subrange(3, n1) =~= rest);
    assert(p2.subrange(1, n2) =~= rest);
    assert(valid(st));
    if st.mem[st.ptr] == 0 {
        lemma_run_win_frame(p1, 3, n1, 3, n1, st, fuel);
        assert(run(p1, st, fuel) == run_win(rest, 0, rest.len() as int, st, fuel));
        let st_z = State { mem: st.mem.update(st.ptr, 0u8), ..st };
        assert(st.mem.update(st.ptr, 0u8) =~= st.mem);
        assert(st_z == st);
        lemma_run_win_frame(p2, 1, n2, 1, n2, st, fuel);
        assert(run(p2, st, fuel) == run_win(rest, 0, rest.len() as int, st, fuel));
    } else {
        assert(fuel > 0);
        let f1 = (fuel - 1) as nat;
        let v = st.mem[st.ptr];
        let w = if mid is Add {
            wrap_add(v, crate::ir::count_of(mid))
        } else {
            wrap_sub(v, crate::ir::count_of(mid))
        };
        let st1 = State { mem: st.mem.update(st.ptr, w), ..st };
        assert(run_win(p1, 2, 2, st1, f1) == Some(st1));
        assert(run_win(p1, 1, 2, st, f1) == Some(st1));
        assert(run(p1, st, fuel) == run_win(p1, 0, n1, st1, f1));
        lemma_cell_zero_ctx(mid, rest, st1, f1);
        // the zero-store lands in the same state from either start
        let z1 = State { mem: st1.mem.update(st1.ptr, 0u8), ..st1 };
        let z0 = State { mem: st.mem.update(st.ptr, 0u8), ..st };
        assert(st1.mem.update(st1.ptr, 0u8) =~= st.mem.update(st.ptr, 0u8));
        assert(z1 == z0);
        lemma_run_win_frame(p2, 1, n2, 1, n2, z0, f1);
        assert(run(p2, st1, f1) == run_win(rest, 0, rest.len() as int, z0, f1));
        assert(run_win(rest, 0, rest.len() as int, z0, f1) is Some);
        crate::sem::lemma_run_win_fuel_mono(rest, 0, rest.len() as int, z0, f1, fuel);
        lemma_run_win_frame(p2, 1, n2, 1, n2, z0, fuel);
        assert(run(p2, st, fuel) == run_win(rest, 0, rest.len() as int, z0, fuel));
    }
}

/// The canonical decrement loop `[-]` halts within as many iterations as the
/// cell holds, in the zeroed state.
pub proof fn lemma_cell_zero_terminates_sub(st: State, fuel: nat)
    requires
        valid(st),
        fuel >= st.mem[st.ptr],
    ensures
        run(seq![Inst::LoopStart, Inst::Sub(1), Inst::LoopEnd], st, fuel) == Some(zeroed(st)),
    decreases st.mem[st.ptr],
{
    let p1 = seq![Inst::LoopStart, Inst::Sub(1), Inst::LoopEnd];
    assert(p1.len() == 3 && p1[0] == Inst::LoopStart && p1[1] == Inst::Sub(1) && p1[2]
        == Inst::LoopEnd);
    assert(match_end(p1, 2, 3, 0) == Some(2int));
    assert(match_end(p1, 1, 3, 0) == Some(2int));
    let v = st.mem[st.ptr];
    if v == 0 {
        assert(run_win(p1, 3, 3, st, fuel) == Some(st));
        assert(st.mem.update(st.ptr, 0u8) =~= st.mem);
        assert(zeroed(st) == st);
    } else {
        let f1 = (fuel - 1) as nat;
        vstd::arithmetic::div_mod::lemma_small_mod((v - 1) as nat, 256);
        assert(wrap_sub(v, 1) == (v - 1) as u8);
        let st1 = State { mem: st.mem.update(st.ptr, (v - 1) as u8), ..st };
        assert(run_win(p1, 2, 2, st1, f1) == Some(st1));
        assert(run_win(p1, 1, 2, st, f1) == Some(st1));
        lemma_cell_zero_terminates_sub(st1, f1);
        assert(run_win(p1, 0, 3, st1, f1) == Some(zeroed(st1)));
        assert(st1.mem.update(st1.ptr, 0u8) =~= st.mem.update(st.ptr, 0u8));
        assert(zeroed(st1) == zeroed(st));
    }
}

/// The canonical increment loop `[+]` wraps the cell around to zero and
/// halts, within `256 - cell` iterations.
pub proof fn lemma_cell_zero_terminates_add(st: State, fuel: nat)
    requires
        valid(st),
        st.mem[st.ptr] != 0 ==> fuel >= 256 - st.mem[st.ptr],
    ensures
        run(seq![Inst::LoopStart, Inst::Add(1), Inst::LoopEnd], st, fuel) == Some(zeroed(st)),
    decreases 256 - st.mem[st.ptr],
{
    let p1 = seq![Inst::LoopStart, Inst::Add(1), Inst::LoopEnd];
    assert(p1.len() == 3 && p1[0] == Inst::LoopStart && p1[1] == Inst::Add(1) && p1[2]
        == Inst::LoopEnd);
    assert(match_end(p1, 2, 3, 0) == Some(2int));
    assert(match_end(p1, 1, 3, 0) == Some(2int));
    let v = st.mem[st.ptr];
    if v == 0 {
        assert(run_win(p1, 3, 3, st, fuel) == Some(st));
        assert(st.mem.update(st.ptr, 0u8) =~= st.mem);
        assert(zeroed(st) == st);
    } else {
        let f1 = (fuel - 1) as nat;
        if v == 255 {
            assert(wrap_add(v, 1) == 0u8);
            let st1 = State { mem: st.mem.update(st.ptr, 0u8), ..st };
            assert(run_win(p1, 2, 2, st1, f1) == Some(st1));
            assert(run_win(p1, 1, 2, st, f1) == Some(st1));
            assert(run_win(p1, 3, 3, st1, f1) == Some(st1));
            assert(run_win(p1, 0, 3, st1, f1) == Some(st1));
            assert(st1 == zeroed(st));
        } else {
            vstd::arithmetic::div_mod::lemma_small_mod((v + 1) as nat, 256);
            assert(wrap_add(v, 1) == (v + 1) as u8);
            let st1 = State { mem: st.mem.update(st.ptr, (v + 1) as u8), ..st };
            assert(run_win(p1, 2, 2, st1, f1) == Some(st1));
            assert(run_win(p1, 1, 2, st, f1) == Some(st1));
            lemma_cell_zero_terminates_add(st1, f1);
            assert(run_win(p1, 0, 3, st1, f1) == Some(zeroed(st1)));
            assert(st1.mem.update(st1.ptr, 0u8) =~= st.mem.update(st.ptr, 0u8));
            assert(zeroed(st1) == zeroed(st));
        }
    }
}

/// The cell-zero pass really turns a leading `[` `+`/`-` `]` window into the
/// zero-store the equivalence above speaks about, and goes on with the rest.
pub proof fn lemma_cell_zero_pass_on_window(mid: Inst, rest: Seq<Inst>)
    requires
        mid is Add || mid is Sub,
    ensures
        crate::opt::cell_zero_spec(seq![Inst::LoopStart, mid, Inst::LoopEnd] + rest) == seq![
            Inst::Zero(0),
        ] + crate::opt::cell_zero_spec(rest),
{
    let p = seq![Inst::LoopStart, mid, Inst::LoopEnd] + rest;
    assert(p[0] == Inst::LoopStart && p[1] == mid && p[2] == Inst::LoopEnd);
    assert(crate::opt::cz_match(p));
    assert(p.skip(3) =~= rest);
}

/// The scan pass really turns a leading supported `[` move `]` window into
/// the `Scan` op the equivalences above speak about, and goes on with the
/// rest.
pub proof fn lemma_scan_pass_on_window(mov: Inst, rest: Seq<Inst>)
    requires
        match mov {
            Inst::Right(ct) => ct == 1 || ct == 2 || ct == 4,
            Inst::Left(ct) => ct == 1 || ct == 2,
            _ => false,
        },
    ensures
        crate::opt::scan_opt_spec(seq![Inst::LoopStart, mov, Inst::LoopEnd] + rest) == seq![
            Inst::Scan(crate::opt::stride_of(mov)),
        ] + crate::opt::scan_opt_spec(rest),
{
    let p = seq![Inst::LoopStart, mov, Inst::LoopEnd] + rest;
    assert(p[0] == Inst::LoopStart && p[1] == mov && p[2] == Inst::LoopEnd);
    assert(crate::opt::scan_match(p));
    assert(p.skip(3) =~= rest);
}

proof fn lemma_wrap_add_chain(x: u8, a: int, b: int)
    ensures
        wrap_add(wrap_add(x, a), b) == wrap_add(x, a + b),
{
    vstd::arithmetic::div_mod::lemma_mod_twice(x + a, 256);
    vstd::arithmetic::div_mod::lemma_add_mod_noop((x + a) % 256, b, 256);
    vstd::arithmetic::div_mod::lemma_add_mod_noop(x + a, b, 256);
    assert(((x + a) % 256 + b) % 256 == (x + a + b) % 256);
}

proof fn lemma_wrap_add_zero(x: u8)
    ensures
        wrap_add(x, 0) == x,
{
    vstd::arithmetic::div_mod::lemma_small_mod(x as nat, 256);
}

/// A loop body of pointer moves and current-relative arithmetic only.
pub open spec fn arith_only(s: Seq<Inst>) -> bool {
    forall|k: int|
        0 <= k < s.len() ==> (#[trigger] s[k] is Add || s[k] is Sub || s[k] is Right || s[k]
            is Left)
}

/// Walking the body with running displacement `dp`: exactly one arithmetic
/// instruction sits at displacement 0, and it is the canonical decrement
/// `Sub(1)` (`seen` records whether it has passed already).
pub open spec fn sub_counter(s: Seq<Inst>, dp: int, seen: bool) -> bool
    decreases s.len(),
{
    if s.len() == 0 {
        seen
    } else {
        match s[0] {
            Inst::Right(ct) => sub_counter(s.skip(1), dp + ct, seen),
            Inst::Left(ct) => sub_counter(s.skip(1), dp - ct, seen),
            Inst::Add(_) => dp != 0 && sub_counter(s.skip(1), dp, seen),
            Inst::Sub(ct) => {
                if dp == 0 {
                    ct == 1 && !seen && sub_counter(s.skip(1), dp, true)
                } else {
                    sub_counter(s.skip(1), dp, seen)
                }
            },
            _ => sub_counter(s.skip(1), dp, seen),
        }
    }
}

/// Net signed change the body applies to the cell at displacement `q` from
/// the loop head, walking with running displacement `dp`.
pub open spec fn body_delta(s: Seq<Inst>, dp: int, q: int) -> int
    decreases s.len(),
{
    if s.len() == 0 {
        0
    } else {
        match s[0] {
            Inst::Right(ct) => body_delta(s.skip(1), dp + ct, q),
            Inst::Left(ct) => body_delta(s.skip(1), dp - ct, q),
            Inst::Add(ct) => (if dp == q {
                ct as int
            } else {
                0
            }) + body_delta(s.skip(1), dp, q),
            Inst::Sub(ct) => (if dp == q {
                -(ct as int)
            } else {
                0
            }) + body_delta(s.skip(1), dp, q),
            _ => body_delta(s.skip(1), dp, q),
        }
    }
}

/// Every pointer position the body walks through from `pos` stays on a tape
/// of length `len`.
pub open spec fn moves_in_bounds(s: Seq<Inst>, pos: int, len: int) -> bool
    decreases s.len(),
{
    if s.len() == 0 {
        true
    } else {
        match s[0] {
            Inst::Right(ct) => 0 <= pos + ct < len && moves_in_bounds(s.skip(1), pos + ct, len),
            Inst::Left(ct) => 0 <= pos - ct < len && moves_in_bounds(s.skip(1), pos - ct, len),
            _ => moves_in_bounds(s.skip(1), pos, len),
        }
    }
}

/// The single counter decrement is the body's whole effect on the loop-head
/// cell.
proof fn lemma_sub_counter_delta(s: Seq<Inst>, dp: int, seen: bool)
    requires
        sub_counter(s, dp, seen),
    ensures
        body_delta(s, dp, 0) == if seen {
            0int
        } else {
            -1int
        },
    decreases s.len(),
{
    if s.len() > 0 {
        match s[0] {
            Inst::Right(ct) => lemma_sub_counter_delta(s.skip(1), dp + ct, seen),
            Inst::Left(ct) => lemma_sub_counter_delta(s.skip(1), dp - ct, seen),
            Inst::Add(_) => lemma_sub_counter_delta(s.skip(1), dp, seen),
            Inst::Sub(_) => {
                if dp == 0 {
                    lemma_sub_counter_delta(s.skip(1), dp, true);
                } else {
                    lemma_sub_counter_delta(s.skip(1), dp, seen);
                }
            },
            _ => lemma_sub_counter_delta(s.skip(1), dp, seen),
        }
    }
}

/// A body with a single `Sub(1)` counter satisfies the classifier's weaker
/// lone-unit-counter condition.
proof fn lemma_sub_counter_implies_lone(s: Seq<Inst>, dp: int, seen: bool)
    requires
        sub_counter(s, dp, seen),
    ensures
        crate::opt::lone_unit_counter(s, dp, seen),
    decreases s.len(),
{
    if s.len() > 0 {
        match s[0] {
            Inst::Right(ct) => lemma_sub_counter_implies_lone(s.skip(1), dp + ct, seen),
            Inst::Left(ct) => lemma_sub_counter_implies_lone(s.skip(1), dp - ct, seen),
            Inst::Add(_) => lemma_sub_counter_implies_lone(s.skip(1), dp, seen),
            Inst::Sub(_) => {
                if dp == 0 {
                    lemma_sub_counter_implies_lone(s.skip(1), dp, true);
                } else {
                    lemma_sub_counter_implies_lone(s.skip(1), dp, seen);
                }
            },
            _ => lemma_sub_counter_implies_lone(s.skip(1), dp, seen),
        }
    }
}

proof fn lemma_arith_no_io(s: Seq<Inst>)
    requires
        arith_only(s),
    ensures
        crate::opt::no_io(s),
    decreases s.len(),
{
    if s.len() > 0 {
        assert(s[0] is Add || s[0] is Sub || s[0] is Right || s[0] is Left);
        assert forall|k: int| 0 <= k < s.skip(1).len() implies (#[trigger] s.skip(1)[k] is Add
            || s.skip(1)[k] is Sub || s.skip(1)[k] is Right || s.skip(1)[k] is Left) by {
            assert(s.skip(1)[k] == s[k + 1]);
        }
        lemma_arith_no_io(s.skip(1));
    }
}

/// Pins `match_end` down from a marker-free stretch: scanning from `i`, the
/// first marker is the `]` at `j`.
proof fn lemma_match_end_flat(s: Seq<Inst>, i: int, j: int, hi: int)
    requires
        0 <= i <= j < hi <= s.len(),
        forall|k: int| i <= k < j ==> #[trigger] s[k] != Inst::LoopStart && s[k] != Inst::LoopEnd,
        s[j] == Inst::LoopEnd,
    ensures
        match_end(s, i, hi, 0) == Some(j),
    decreases j - i,
{
    if i < j {
        lemma_match_end_flat(s, i + 1, j, hi);
    }
}

/// The state one pass of an arithmetic body leaves behind: each cell moved by
/// the body's net change at its displacement, the pointer shifted by the net
/// displacement.
pub open spec fn passed(st: State, b: Seq<Inst>, dp: int, anchor: int) -> State {
    State {
        mem: Seq::new(
            st.mem.len(),
            |i: int| wrap_add(st.mem[i], body_delta(b, dp, i - anchor)),
        ),
        ptr: st.ptr + crate::opt::body_displacement(b),
        ..st
    }
}

/// Running the window `prog[lo .. hi]`, an arithmetic-only stretch, from a
/// valid position whose walk stays on the tape: it cannot get stuck, spends
/// no fuel, and lands in exactly the `passed` state.
proof fn lemma_arith_pass(prog: Seq<Inst>, lo: int, hi: int, st: State, fuel: nat, anchor: int)
    requires
        0 <= lo <= hi <= prog.len(),
        arith_only(prog.subrange(lo, hi)),
        0 <= st.ptr < st.mem.len(),
        moves_in_bounds(prog.subrange(lo, hi), st.ptr, st.mem.len() as int),
    ensures
        run_win(prog, lo, hi, st, fuel) == Some(
            passed(st, prog.subrange(lo, hi), st.ptr - anchor, anchor),
        ),
    decreases hi - lo,
{
    let b = prog.subrange(lo, hi);
    let dp = st.ptr - anchor;
    if lo == hi {
        assert(b =~= Seq::<Inst>::empty());
        let tgt = passed(st, b, dp, anchor);
        assert forall|i: int| 0 <= i < st.mem.len() implies tgt.mem[i] == st.mem[i] by {
            assert(body_delta(b, dp, i - anchor) == 0);
            lemma_wrap_add_zero(st.mem[i]);
        }
        assert(tgt.mem =~= st.mem);
        assert(crate::opt::body_displacement(b) == 0);
        assert(tgt == st);
    } else {
        let h = prog[lo];
        assert(b[0] == h);
        assert(b.skip(1) =~= prog.subrange(lo + 1, hi));
        let b2 = prog.subrange(lo + 1, hi);
        assert(arith_only(b2)) by {
            assert forall|k: int| 0 <= k < b2.len() implies (#[trigger] b2[k] is Add || b2[k]
                is Sub || b2[k] is Right || b2[k] is Left) by {
                assert(b2[k] == b[k + 1]);
            }
        }
        assert(h is Add || h is Sub || h is Right || h is Left);
        match h {
            Inst::Add(ct) => {
                let v = st.mem[st.ptr];
                let st1 = State { mem: st.mem.update(st.ptr, wrap_add(v, ct as int)), ..st };
                assert(run_win(prog, lo, hi, st, fuel) == run_win(prog, lo + 1, hi, st1, fuel));
                lemma_arith_pass(prog, lo + 1, hi, st1, fuel, anchor);
                let t1 = passed(st1, b2, dp, anchor);
                let tgt = passed(st, b, dp, anchor);
                assert forall|i: int| 0 <= i < st.mem.len() implies t1.mem[i] == tgt.mem[i] by {
                    if i == st.ptr {
                        assert(st1.mem[i] == wrap_add(st.mem[i], ct as int));
                        lemma_wrap_add_chain(st.mem[i], ct as int, body_delta(b2, dp, i - anchor));
                        assert(body_delta(b, dp, i - anchor) == ct + body_delta(
                            b2,
                            dp,
                            i - anchor,
                        ));
                    } else {
                        assert(st1.mem[i] == st.mem[i]);
                        assert(body_delta(b, dp, i - anchor) == body_delta(b2, dp, i - anchor));
                    }
                }
                assert(t1.mem =~= tgt.mem);
                assert(crate::opt::body_displacement(b) == crate::opt::body_displacement(b2));
                assert(t1 == tgt);
            },
            Inst::Sub(ct) => {
                let v = st.mem[st.ptr];
                let st1 = State { mem: st.mem.update(st.ptr, wrap_sub(v, ct as int)), ..st };
                assert(run_win(prog, lo, hi, st, fuel) == run_win(prog, lo + 1, hi, st1, fuel));
                lemma_arith_pass(prog, lo + 1, hi, st1, fuel, anchor);
                let t1 = passed(st1, b2, dp, anchor);
                let tgt = passed(st, b, dp, anchor);
                assert forall|i: int| 0 <= i < st.mem.len() implies t1.mem[i] == tgt.mem[i] by {
                    if i == st.ptr {
                        assert(wrap_sub(st.mem[i], ct as int) == wrap_add(
                            st.mem[i],
                            -(ct as int),
                        ));
                        assert(st1.mem[i] == wrap_add(st.mem[i], -(ct as int)));
                        lemma_wrap_add_chain(
                            st.mem[i],
                            -(ct as int),
                            body_delta(b2, dp, i - anchor),
                        );
                        assert(body_delta(b, dp, i - anchor) == -(ct as int) + body_delta(
                            b2,
                            dp,
                            i - anchor,
                        ));
                    } else {
                        assert(st1.mem[i] == st.mem[i]);
                        assert(body_delta(b, dp, i - anchor) == body_delta(b2, dp, i - anchor));
                    }
                }
                assert(t1.mem =~= tgt.mem);
                assert(crate::opt::body_displacement(b) == crate::opt::body_displacement(b2));
                assert(t1 == tgt);
            },
            Inst::Right(ct) => {
                assert(0 <= st.ptr + ct < st.mem.len());
                let st1 = State { ptr: st.ptr + ct, ..st };
                assert(run_win(prog, lo, hi, st, fuel) == run_win(prog, lo + 1, hi, st1, fuel));
                lemma_arith_pass(prog, lo + 1, hi, st1, fuel, anchor);
                let t1 = passed(st1, b2, dp + ct, anchor);
                let tgt = passed(st, b, dp, anchor);
                assert forall|i: int| 0 <= i < st.mem.len() implies t1.mem[i] == tgt.mem[i] by {
                    assert(body_delta(b, dp, i - anchor) == body_delta(b2, dp + ct, i - anchor));
                }
                assert(t1.mem =~= tgt.mem);
                assert(crate::opt::body_displacement(b) == ct + crate::opt::body_displacement(b2));
                assert(t1 == tgt);
            },
            Inst::Left(ct) => {
                assert(0 <= st.ptr - ct < st.mem.len());
                let st1 = State { ptr: st.ptr - ct, ..st };
                assert(run_win(prog, lo, hi, st, fuel) == run_win(prog, lo + 1, hi, st1, fuel));
                lemma_arith_pass(prog, lo + 1, hi, st1, fuel, anchor);
                let t1 = passed(st1, b2, dp - ct, anchor);
                let tgt = passed(st, b, dp, anchor);
                assert forall|i: int| 0 <= i < st.mem.len() implies t1.mem[i] == tgt.mem[i] by {
                    assert(body_delta(b, dp, i - anchor) == body_delta(b2, dp - ct, i - anchor));
                }
                assert(t1.mem =~= tgt.mem);
                assert(crate::opt::body_displacement(b) == crate::opt::body_displacement(b2) - ct);
                assert(t1 == tgt);
            },
            _ => {
                assert(false);
            },
        }
    }
}

/// Every running displacement the body walks through fits a 32-bit offset
/// immediate.
pub open spec fn disp_bounded(s: Seq<Inst>, dp: int) -> bool
    decreases s.len(),
{
    if s.len() == 0 {
        true
    } else {
        -0x8000_0000 <= dp <= 0x7fff_ffff && match s[0] {
            Inst::Right(ct) => disp_bounded(s.skip(1), dp + ct),
            Inst::Left(ct) => disp_bounded(s.skip(1), dp - ct),
            _ => disp_bounded(s.skip(1), dp),
        }
    }
}

proof fn lemma_reduce_body_arith(s: Seq<Inst>, dp: int)
    requires
        arith_only(s),
    ensures
        forall|k: int|
            0 <= k < crate::opt::reduce_body(s, dp).len() ==> (#[trigger] crate::opt::reduce_body(
                s,
                dp,
            )[k] is AddFrom || crate::opt::reduce_body(s, dp)[k] is SubFrom),
    decreases s.len(),
{
    if s.len() > 0 {
        assert(s[0] is Add || s[0] is Sub || s[0] is Right || s[0] is Left);
        assert forall|k: int| 0 <= k < s.skip(1).len() implies (#[trigger] s.skip(1)[k] is Add
            || s.skip(1)[k] is Sub || s.skip(1)[k] is Right || s.skip(1)[k] is Left) by {
            assert(s.skip(1)[k] == s[k + 1]);
        }
        let tail_dp = match s[0] {
            Inst::Right(ct) => dp + ct,
            Inst::Left(ct) => dp - ct,
            _ => dp,
        };
        lemma_reduce_body_arith(s.skip(1), tail_dp);
        let out = crate::opt::reduce_body(s, dp);
        let tail = crate::opt::reduce_body(s.skip(1), tail_dp);
        assert forall|k: int| 0 <= k < out.len() implies (#[trigger] out[k] is AddFrom || out[k]
            is SubFrom) by {
            match s[0] {
                Inst::Add(ct) => {
                    if dp != 0 {
                        if k == 0 {
                            assert(out[0] == Inst::AddFrom(ct, dp as i32));
                        } else {
                            assert(out[k] == tail[k - 1]);
                        }
                    }
                },
                Inst::Sub(ct) => {
                    if dp != 0 {
                        if k == 0 {
                            assert(out[0] == Inst::SubFrom(ct, dp as i32));
                        } else {
                            assert(out[k] == tail[k - 1]);
                        }
                    }
                },
                _ => {},
            }
        }
    }
}

/// Pins `match_simple_end` down from a stretch that holds no
/// `SimpleLoopEnd`.
proof fn lemma_match_simple_end_flat(s: Seq<Inst>, i: int, j: int, hi: int)
    requires
        0 <= i <= j < hi <= s.len(),
        forall|k: int| i <= k < j ==> #[trigger] s[k] != Inst::SimpleLoopEnd,
        s[j] == Inst::SimpleLoopEnd,
    ensures
        match_simple_end(s, i, hi) == Some(j),
    decreases j - i,
{
    if i < j {
        lemma_match_simple_end_flat(s, i + 1, j, hi);
    }
}

/// The state one pass of a reduced body leaves behind: every cell other than
/// the loop head moved by counter-times-its-net-change, the pointer parked.
pub open spec fn reduced_passed(st: State, b: Seq<Inst>, dp: int, anchor: int) -> State {
    State {
        mem: Seq::new(
            st.mem.len(),
            |i: int|
                if i == anchor {
                    st.mem[i]
                } else {
                    wrap_add(st.mem[i], body_delta(b, dp, i - anchor) * st.mem[anchor])
                },
        ),
        ..st
    }
}

/// Consuming the reduced body `reduce_body(b, dp)` at `prog[lo ..]`: it
/// cannot get stuck, spends no fuel, never moves the pointer, and applies
/// each of the body's per-iteration changes scaled by the counter cell.
proof fn lemma_reduced_pass(
    prog: Seq<Inst>,
    lo: int,
    mid: int,
    hi: int,
    b: Seq<Inst>,
    dp: int,
    st: State,
    fuel: nat,
    anchor: int,
)
    requires
        0 <= lo <= mid <= hi <= prog.len(),
        prog.subrange(lo, mid) == crate::opt::reduce_body(b, dp),
        arith_only(b),
        disp_bounded(b, dp),
        st.ptr == anchor,
        0 <= anchor < st.mem.len(),
        0 <= anchor + dp < st.mem.len(),
        moves_in_bounds(b, anchor + dp, st.mem.len() as int),
    ensures
        run_win(prog, lo, hi, st, fuel) == run_win(
            prog,
            mid,
            hi,
            reduced_passed(st, b, dp, anchor),
            fuel,
        ),
    decreases b.len(),
{
    let red = crate::opt::reduce_body(b, dp);
    let v = st.mem[anchor];
    if b.len() == 0 {
        assert(red =~= Seq::<Inst>::empty());
        assert(mid - lo == red.len());
        let tgt = reduced_passed(st, b, dp, anchor);
        assert forall|i: int| 0 <= i < st.mem.len() implies tgt.mem[i] == st.mem[i] by {
            if i != anchor {
                assert(body_delta(b, dp, i - anchor) == 0);
                lemma_wrap_add_zero(st.mem[i]);
            }
        }
        assert(tgt.mem =~= st.mem);
        assert(tgt == st);
    } else {
        let h = b[0];
        let b2 = b.skip(1);
        assert(h is Add || h is Sub || h is Right || h is Left);
        assert(arith_only(b2)) by {
            assert forall|k: int| 0 <= k < b2.len() implies (#[trigger] b2[k] is Add || b2[k]
                is Sub || b2[k] is Right || b2[k] is Left) by {
                assert(b2[k] == b[k + 1]);
            }
        }
        let dropped = match h {
            Inst::Add(_) => dp == 0,
            Inst::Sub(_) => dp == 0,
            Inst::Right(_) => true,
            Inst::Left(_) => true,
            _ => false,
        };
        if dropped {
            let dp2 = match h {
                Inst::Right(ct) => dp + ct,
                Inst::Left(ct) => dp - ct,
                _ => dp,
            };
            assert(red == crate::opt::reduce_body(b2, dp2));
            lemma_reduced_pass(prog, lo, mid, hi, b2, dp2, st, fuel, anchor);
            let t2 = reduced_passed(st, b2, dp2, anchor);
            let tgt = reduced_passed(st, b, dp, anchor);
            assert forall|i: int| 0 <= i < st.mem.len() implies t2.mem[i] == tgt.mem[i] by {
                if i != anchor {
                    assert(body_delta(b, dp, i - anchor) == body_delta(b2, dp2, i - anchor));
                }
            }
            assert(t2.mem =~= tgt.mem);
            assert(t2 == tgt);
        } else {
            // an emitted multiply-accumulate at offset dp
            let red2 = crate::opt::reduce_body(b2, dp);
            let emitted = match h {
                Inst::Add(ct) => Inst::AddFrom(ct, dp as i32),
                Inst::Sub(ct) => Inst::SubFrom(ct, dp as i32),
                _ => h,
            };
            assert(red == seq![emitted] + red2);
            assert(red[0] == emitted);
            assert(lo < mid);
            assert(prog[lo] == red[0]) by {
                assert(prog.subrange(lo, mid)[0] == prog[lo]);
            }
            assert(dp as i32 as int == dp);
            let q = anchor + dp;
            let ct = match h {
                Inst::Add(c) => c,
                Inst::Sub(c) => c,
                _ => 0,
            };
            let w = if h is Add {
                wrap_add(st.mem[q], ct * v)
            } else {
                wrap_sub(st.mem[q], ct * v)
            };
            let st1 = State { mem: st.mem.update(q, w), ..st };
            assert(run_win(prog, lo, hi, st, fuel) == run_win(prog, lo + 1, hi, st1, fuel));
            assert(prog.subrange(lo + 1, mid) == red2) by {
                assert(prog.subrange(lo + 1, mid) =~= prog.subrange(lo, mid).skip(1));
                assert(red.skip(1) =~= red2);
            }
            assert(st1.mem[anchor] == v);
            assert(st1.mem.len() == st.mem.len());
            lemma_reduced_pass(prog, lo + 1, mid, hi, b2, dp, st1, fuel, anchor);
            let t2 = reduced_passed(st1, b2, dp, anchor);
            let tgt = reduced_passed(st, b, dp, anchor);
            assert forall|i: int| 0 <= i < st.mem.len() implies t2.mem[i] == tgt.mem[i] by {
                if i != anchor {
                    let d2 = body_delta(b2, dp, i - anchor);
                    if i == q {
                        let sgn: int = if h is Add {
                            ct as int
                        } else {
                            -(ct as int)
                        };
                        assert(st1.mem[i] == wrap_add(st.mem[i], sgn * v)) by {
                            if h is Sub {
                                assert((ct * v) >= 0) by (nonlinear_arith)
                                    requires ct >= 0 && v >= 0;
                                assert(-(ct as int) * v == -(ct * v)) by (nonlinear_arith);
                            }
                        }
                        lemma_wrap_add_chain(st.mem[i], sgn * v, d2 * v);
                        assert(sgn * v + d2 * v == (sgn + d2) * v) by (nonlinear_arith);
                        assert(body_delta(b, dp, i - anchor) == sgn + d2);
                    } else {
                        assert(st1.mem[i] == st.mem[i]);
                        assert(body_delta(b, dp, i - anchor) == d2);
                    }
                }
            }
            assert(t2.mem =~= tgt.mem);
            assert(t2 == tgt);
        }
    }
}

/// Conversely, a halting pass over an arithmetic window shows its walk never
/// left the tape.
proof fn lemma_arith_pass_bounds(prog: Seq<Inst>, lo: int, hi: int, st: State, fuel: nat)
    requires
        0 <= lo <= hi <= prog.len(),
        arith_only(prog.subrange(lo, hi)),
        0 <= st.ptr < st.mem.len(),
        run_win(prog, lo, hi, st, fuel) is Some,
    ensures
        moves_in_bounds(prog.subrange(lo, hi), st.ptr, st.mem.len() as int),
    decreases hi - lo,
{
    let b = prog.subrange(lo, hi);
    if lo < hi {
        let h = prog[lo];
        assert(b[0] == h);
        assert(b.skip(1) =~= prog.subrange(lo + 1, hi));
        let b2 = prog.subrange(lo + 1, hi);
        assert(arith_only(b2)) by {
            assert forall|k: int| 0 <= k < b2.len() implies (#[trigger] b2[k] is Add || b2[k]
                is Sub || b2[k] is Right || b2[k] is Left) by {
                assert(b2[k] == b[k + 1]);
            }
        }
        assert(h is Add || h is Sub || h is Right || h is Left);
        match h {
            Inst::Add(ct) => {
                let st2 = State {
                    mem: st.mem.update(st.ptr, wrap_add(st.mem[st.ptr], ct as int)),
                    ..st
                };
                lemma_arith_pass_bounds(prog, lo + 1, hi, st2, fuel);
            },
            Inst::Sub(ct) => {
                let st2 = State {
                    mem: st.mem.update(st.ptr, wrap_sub(st.mem[st.ptr], ct as int)),
                    ..st
                };
                lemma_arith_pass_bounds(prog, lo + 1, hi, st2, fuel);
            },
            Inst::Right(ct) => {
                assert(0 <= st.ptr + ct < st.mem.len());
                lemma_arith_pass_bounds(prog, lo + 1, hi, State { ptr: st.ptr + ct, ..st }, fuel);
            },
            Inst::Left(ct) => {
                assert(0 <= st.ptr - ct < st.mem.len());
                lemma_arith_pass_bounds(prog, lo + 1, hi, State { ptr: st.ptr - ct, ..st }, fuel);
            },
            _ => {
                assert(false);
            },
        }
    }
}

/// Conversely, a halting run of the bracketed loop shows the budget covered
/// its counter-many iterations and, when the loop ran at all, that its
/// body's walk stayed on the tape.
proof fn lemma_bracket_halting_bounds(b: Seq<Inst>, rest: Seq<Inst>, st: State, fuel: nat)
    requires
        arith_only(b),
        crate::opt::body_displacement(b) == 0,
        sub_counter(b, 0, false),
        run((seq![Inst::LoopStart] + b + seq![Inst::LoopEnd]) + rest, st, fuel) is Some,
    ensures
        valid(st),
        fuel >= st.mem[st.ptr],
        st.mem[st.ptr] != 0 ==> moves_in_bounds(b, st.ptr, st.mem.len() as int),
    decreases fuel,
{
    let prog = (seq![Inst::LoopStart] + b + seq![Inst::LoopEnd]) + rest;
    let n = prog.len() as int;
    let j = 1 + b.len() as int;
    assert(prog[0] == Inst::LoopStart);
    assert(prog[j] == Inst::LoopEnd);
    assert forall|k: int| 1 <= k < j implies #[trigger] prog[k] != Inst::LoopStart && prog[k]
        != Inst::LoopEnd by {
        assert(prog[k] == b[k - 1]);
        assert(b[k - 1] is Add || b[k - 1] is Sub || b[k - 1] is Right || b[k - 1] is Left);
    }
    lemma_match_end_flat(prog, 1, j, n);
    assert(match_end(prog, 1, n, 0) == Some(j));
    assert(valid(st));
    let v = st.mem[st.ptr];
    if v != 0 {
        assert(fuel > 0);
        let f1 = (fuel - 1) as nat;
        assert(run_win(prog, 1, j, st, f1) is Some);
        assert(prog.subrange(1, j) =~= b);
        lemma_arith_pass_bounds(prog, 1, j, st, f1);
        lemma_arith_pass(prog, 1, j, st, f1, st.ptr);
        let st1 = passed(st, b, 0, st.ptr);
        assert(run_win(prog, 1, j, st, f1) == Some(st1));
        assert(st1.ptr == st.ptr);
        assert(st1.mem.len() == st.mem.len());
        lemma_sub_counter_delta(b, 0, false);
        assert(st1.mem[st.ptr] == wrap_add(v, -1));
        vstd::arithmetic::div_mod::lemma_small_mod((v - 1) as nat, 256);
        assert(st1.mem[st.ptr] == (v - 1) as u8);
        assert(run_win(prog, 0, n, st1, f1) is Some);
        lemma_bracket_halting_bounds(b, rest, st1, f1);
    }
}

/// The state a counter-driven redistribution loop is meant to end in: every
/// cell moved by counter-times-its-net-change, the counter cell cleared, the
/// pointer back where it started.
pub open spec fn redistributed_general(st: State, b: Seq<Inst>) -> State {
    State {
        mem: Seq::new(
            st.mem.len(),
            |i: int|
                if i == st.ptr {
                    0u8
                } else {
                    wrap_add(st.mem[i], body_delta(b, 0, i - st.ptr) * st.mem[st.ptr])
                },
        ),
        ..st
    }
}

/// The reduced form of any arithmetic body reaches the redistributed state
/// directly: the guard skips it when the counter is zero, one pass applies
/// every per-iteration change scaled by the counter, and the closing
/// zero-store clears the counter. No fuel is spent.
pub proof fn lemma_run_reduced_general(b: Seq<Inst>, st: State, fuel: nat)
    requires
        valid(st),
        arith_only(b),
        disp_bounded(b, 0),
        moves_in_bounds(b, st.ptr, st.mem.len() as int),
    ensures
        run(crate::opt::reduced_loop(b), st, fuel) == Some(redistributed_general(st, b)),
{
    let red = crate::opt::reduce_body(b, 0);
    let prog = crate::opt::reduced_loop(b);
    let m = 1 + red.len() as int;
    let j = m + 1;
    let n = prog.len() as int;
    assert(n == j + 1);
    assert(prog =~= seq![Inst::SimpleLoopStart(0)] + red + seq![
        Inst::Zero(0),
        Inst::SimpleLoopEnd,
    ]);
    assert(prog[0] == Inst::SimpleLoopStart(0));
    assert(prog[m] == Inst::Zero(0));
    assert(prog[j] == Inst::SimpleLoopEnd);
    lemma_reduce_body_arith(b, 0);
    assert forall|k: int| 1 <= k < j implies #[trigger] prog[k] != Inst::SimpleLoopEnd by {
        if k < m {
            assert(prog[k] == red[k - 1]);
            assert(red[k - 1] is AddFrom || red[k - 1] is SubFrom);
        }
    }
    lemma_match_simple_end_flat(prog, 1, j, n);
    assert(match_simple_end(prog, 1, n) == Some(j));
    let v = st.mem[st.ptr];
    let tgt = redistributed_general(st, b);
    if v == 0 {
        assert(run_win(prog, j + 1, n, st, fuel) == Some(st));
        assert(run(prog, st, fuel) == Some(st));
        assert forall|i: int| 0 <= i < st.mem.len() implies tgt.mem[i] == st.mem[i] by {
            if i == st.ptr {
            } else {
                assert(body_delta(b, 0, i - st.ptr) * v == 0);
                lemma_wrap_add_zero(st.mem[i]);
            }
        }
        assert(tgt.mem =~= st.mem);
        assert(tgt == st);
    } else {
        assert(prog.subrange(1, m) == red) by {
            assert(prog.subrange(1, m) =~= red);
        }
        lemma_reduced_pass(prog, 1, m, j, b, 0, st, fuel, st.ptr);
        let st1 = reduced_passed(st, b, 0, st.ptr);
        assert(run_win(prog, 1, j, st, fuel) == run_win(prog, m, j, st1, fuel));
        assert(st1.ptr == st.ptr);
        assert(st1.mem.len() == st.mem.len());
        let st2 = State { mem: st1.mem.update(st.ptr, 0u8), ..st1 };
        assert(run_win(prog, m, j, st1, fuel) == run_win(prog, m + 1, j, st2, fuel));
        assert(run_win(prog, m + 1, j, st2, fuel) == Some(st2));
        assert(run_win(prog, j + 1, n, st2, fuel) == Some(st2));
        assert(run(prog, st, fuel) == Some(st2));
        assert forall|i: int| 0 <= i < st.mem.len() implies st2.mem[i] == tgt.mem[i] by {
            if i != st.ptr {
                assert(st2.mem[i] == st1.mem[i]);
            }
        }
        assert(st2.mem =~= tgt.mem);
        assert(st2 == tgt);
    }
}

/// Strength reduction's semantic justification in full generality: a loop
/// whose body is arithmetic only, returns the pointer to the loop head, and
/// decrements the counter cell exactly once by one, runs exactly
/// counter-many times; it halts with every other cell moved by counter times
/// the body's per-iteration change at that cell, and the counter at zero.
pub proof fn lemma_strength_reduction_general(b: Seq<Inst>, st: State, fuel: nat)
    requires
        valid(st),
        arith_only(b),
        crate::opt::body_displacement(b) == 0,
        sub_counter(b, 0, false),
        moves_in_bounds(b, st.ptr, st.mem.len() as int),
        fuel >= st.mem[st.ptr],
    ensures
        run(seq![Inst::LoopStart] + b + seq![Inst::LoopEnd], st, fuel) == Some(
            redistributed_general(st, b),
        ),
    decreases st.mem[st.ptr],
{
    let prog = seq![Inst::LoopStart] + b + seq![Inst::LoopEnd];
    let n = prog.len() as int;
    let j = 1 + b.len() as int;
    assert(n == j + 1);
    assert(prog[0] == Inst::LoopStart);
    assert(prog[j] == Inst::LoopEnd);
    assert forall|k: int| 1 <= k < j implies #[trigger] prog[k] != Inst::LoopStart && prog[k]
        != Inst::LoopEnd by {
        assert(prog[k] == b[k - 1]);
        assert(b[k - 1] is Add || b[k - 1] is Sub || b[k - 1] is Right || b[k - 1] is Left);
    }
    lemma_match_end_flat(prog, 1, j, n);
    assert(match_end(prog, 1, n, 0) == Some(j));
    let v = st.mem[st.ptr];
    let tgt = redistributed_general(st, b);
    if v == 0 {
        assert(run_win(prog, j + 1, n, st, fuel) == Some(st));
        assert(run(prog, st, fuel) == Some(st));
        assert forall|i: int| 0 <= i < st.mem.len() implies tgt.mem[i] == st.mem[i] by {
            if i == st.ptr {
            } else {
                assert(body_delta(b, 0, i - st.ptr) * v == 0);
                lemma_wrap_add_zero(st.mem[i]);
            }
        }
        assert(tgt.mem =~= st.mem);
        assert(tgt == st);
    } else {
        let f1 = (fuel - 1) as nat;
        assert(prog.subrange(1, j) =~= b);
        lemma_arith_pass(prog, 1, j, st, f1, st.ptr);
        let st1 = passed(st, b, 0, st.ptr);
        assert(run_win(prog, 1, j, st, f1) == Some(st1));
        assert(st1.ptr == st.ptr);
        assert(st1.mem.len() == st.mem.len());
        lemma_sub_counter_delta(b, 0, false);
        assert(st1.mem[st.ptr] == wrap_add(v, -1));
        vstd::arithmetic::div_mod::lemma_small_mod((v - 1) as nat, 256);
        assert(st1.mem[st.ptr] == (v - 1) as u8);
        lemma_strength_reduction_general(b, st1, f1);
        assert(run_win(prog, 0, n, st1, f1) == Some(redistributed_general(st1, b)));
        assert(run(prog, st, fuel) == Some(redistributed_general(st1, b)));
        let t1 = redistributed_general(st1, b);
        assert forall|i: int| 0 <= i < st.mem.len() implies t1.mem[i] == tgt.mem[i] by {
            if i == st.ptr {
            } else {
                let dlt = body_delta(b, 0, i - st.ptr);
                assert(st1.mem[i] == wrap_add(st.mem[i], dlt));
                lemma_wrap_add_chain(st.mem[i], dlt, dlt * (v - 1));
                assert(dlt + dlt * (v - 1) == dlt * v) by (nonlinear_arith);
                assert(t1.mem[i] == wrap_add(wrap_add(st.mem[i], dlt), dlt * (v - 1)));
            }
        }
        assert(t1.mem =~= tgt.mem);
        assert(t1 == tgt);
    }
}

/// Strength reduction preserves semantics in general: for every arithmetic
/// body that returns the pointer and decrements its counter exactly once by
/// one, and every starting state whose walk stays on the tape, the bracketed
/// loop (given fuel for its counter-many iterations) and its reduced form
/// halt in the same state, and that state is the redistributed one.
pub proof fn lemma_strength_reduction_preserves(b: Seq<Inst>, st: State, fuel: nat, fuel2: nat)
    requires
        valid(st),
        arith_only(b),
        crate::opt::body_displacement(b) == 0,
        sub_counter(b, 0, false),
        disp_bounded(b, 0),
        moves_in_bounds(b, st.ptr, st.mem.len() as int),
        fuel >= st.mem[st.ptr],
    ensures
        run(seq![Inst::LoopStart] + b + seq![Inst::LoopEnd], st, fuel) == run(
            crate::opt::reduced_loop(b),
            st,
            fuel2,
        ),
        run(seq![Inst::LoopStart] + b + seq![Inst::LoopEnd], st, fuel) == Some(
            redistributed_general(st, b),
        ),
{
    lemma_strength_reduction_general(b, st, fuel);
    lemma_run_reduced_general(b, st, fuel2);
}

/// The bracketed loop before a rest of the program: it runs counter-many
/// iterations, lands in the redistributed state, and hands the rest exactly
/// the fuel left after those iterations.
proof fn lemma_bracket_ctx(b: Seq<Inst>, rest: Seq<Inst>, st: State, fuel: nat)
    requires
        valid(st),
        arith_only(b),
        crate::opt::body_displacement(b) == 0,
        sub_counter(b, 0, false),
        st.mem[st.ptr] != 0 ==> moves_in_bounds(b, st.ptr, st.mem.len() as int),
        fuel >= st.mem[st.ptr],
    ensures
        run((seq![Inst::LoopStart] + b + seq![Inst::LoopEnd]) + rest, st, fuel) == run_win(
            rest,
            0,
            rest.len() as int,
            redistributed_general(st, b),
            (fuel - st.mem[st.ptr]) as nat,
        ),
    decreases st.mem[st.ptr],
{
    let prog = (seq![Inst::LoopStart] + b + seq![Inst::LoopEnd]) + rest;
    let n = prog.len() as int;
    let j = 1 + b.len() as int;
    assert(prog[0] == Inst::LoopStart);
    assert(prog[j] == Inst::LoopEnd);
    assert forall|k: int| 1 <= k < j implies #[trigger] prog[k] != Inst::LoopStart && prog[k]
        != Inst::LoopEnd by {
        assert(prog[k] == b[k - 1]);
        assert(b[k - 1] is Add || b[k - 1] is Sub || b[k - 1] is Right || b[k - 1] is Left);
    }
    lemma_match_end_flat(prog, 1, j, n);
    assert(match_end(prog, 1, n, 0) == Some(j));
    let v = st.mem[st.ptr];
    let tgt = redistributed_general(st, b);
    if v == 0 {
        lemma_run_win_frame(prog, j + 1, n, j + 1, n, st, fuel);
        assert(prog.subrange(j + 1, n) =~= rest);
        assert(run(prog, st, fuel) == run_win(rest, 0, rest.len() as int, st, fuel));
        assert forall|i: int| 0 <= i < st.mem.len() implies tgt.mem[i] == st.mem[i] by {
            if i == st.ptr {
            } else {
                assert(body_delta(b, 0, i - st.ptr) * v == 0);
                lemma_wrap_add_zero(st.mem[i]);
            }
        }
        assert(tgt.mem =~= st.mem);
        assert(tgt == st);
    } else {
        let f1 = (fuel - 1) as nat;
        assert(prog.subrange(1, j) =~= b);
        lemma_arith_pass(prog, 1, j, st, f1, st.ptr);
        let st1 = passed(st, b, 0, st.ptr);
        assert(run_win(prog, 1, j, st, f1) == Some(st1));
        assert(st1.ptr == st.ptr);
        assert(st1.mem.len() == st.mem.len());
        lemma_sub_counter_delta(b, 0, false);
        assert(st1.mem[st.ptr] == wrap_add(v, -1));
        vstd::arithmetic::div_mod::lemma_small_mod((v - 1) as nat, 256);
        assert(st1.mem[st.ptr] == (v - 1) as u8);
        lemma_bracket_ctx(b, rest, st1, f1);
        assert(run(prog, st, fuel) == run_win(
            rest,
            0,
            rest.len() as int,
            redistributed_general(st1, b),
            (fuel - v) as nat,
        ));
        let t1 = redistributed_general(st1, b);
        assert forall|i: int| 0 <= i < st.mem.len() implies t1.mem[i] == tgt.mem[i] by {
            if i == st.ptr {
            } else {
                let dlt = body_delta(b, 0, i - st.ptr);
                assert(st1.mem[i] == wrap_add(st.mem[i], dlt));
                lemma_wrap_add_chain(st.mem[i], dlt, dlt * (v - 1));
                assert(dlt + dlt * (v - 1) == dlt * v) by (nonlinear_arith);
                assert(t1.mem[i] == wrap_add(wrap_add(st.mem[i], dlt), dlt * (v - 1)));
            }
        }
        assert(t1.mem =~= tgt.mem);
        assert(t1 == tgt);
    }
}

/// The reduced form before a rest of the program: it lands in the
/// redistributed state and hands the rest the whole fuel budget untouched.
proof fn lemma_reduced_ctx(b: Seq<Inst>, rest: Seq<Inst>, st: State, fuel: nat)
    requires
        valid(st),
        arith_only(b),
        disp_bounded(b, 0),
        st.mem[st.ptr] != 0 ==> moves_in_bounds(b, st.ptr, st.mem.len() as int),
    ensures
        run(crate::opt::reduced_loop(b) + rest, st, fuel) == run_win(
            rest,
            0,
            rest.len() as int,
            redistributed_general(st, b),
            fuel,
        ),
{
    let red = crate::opt::reduce_body(b, 0);
    let prog = crate::opt::reduced_loop(b) + rest;
    let m = 1 + red.len() as int;
    let j = m + 1;
    let n = prog.len() as int;
    assert(prog =~= seq![Inst::SimpleLoopStart(0)] + red + seq![
        Inst::Zero(0),
        Inst::SimpleLoopEnd,
    ] + rest);
    assert(prog[0] == Inst::SimpleLoopStart(0));
    assert(prog[m] == Inst::Zero(0));
    assert(prog[j] == Inst::SimpleLoopEnd);
    lemma_reduce_body_arith(b, 0);
    assert forall|k: int| 1 <= k < j implies #[trigger] prog[k] != Inst::SimpleLoopEnd by {
        if k < m {
            assert(prog[k] == red[k - 1]);
            assert(red[k - 1] is AddFrom || red[k - 1] is SubFrom);
        }
    }
    lemma_match_simple_end_flat(prog, 1, j, n);
    assert(match_simple_end(prog, 1, n) == Some(j));
    assert(prog.subrange(j + 1, n) =~= rest);
    let v = st.mem[st.ptr];
    let tgt = redistributed_general(st, b);
    if v == 0 {
        lemma_run_win_frame(prog, j + 1, n, j + 1, n, st, fuel);
        assert(run(prog, st, fuel) == run_win(rest, 0, rest.len() as int, st, fuel));
        assert forall|i: int| 0 <= i < st.mem.len() implies tgt.mem[i] == st.mem[i] by {
            if i == st.ptr {
            } else {
                assert(body_delta(b, 0, i - st.ptr) * v == 0);
                lemma_wrap_add_zero(st.mem[i]);
            }
        }
        assert(tgt.mem =~= st.mem);
        assert(tgt == st);
    } else {
        assert(prog.subrange(1, m) == red) by {
            assert(prog.subrange(1, m) =~= red);
        }
        lemma_reduced_pass(prog, 1, m, j, b, 0, st, fuel, st.ptr);
        let st1 = reduced_passed(st, b, 0, st.ptr);
        assert(run_win(prog, 1, j, st, fuel) == run_win(prog, m, j, st1, fuel));
        assert(st1.ptr == st.ptr);
        assert(st1.mem.len() == st.mem.len());
        let st2 = State { mem: st1.mem.update(st.ptr, 0u8), ..st1 };
        assert(run_win(prog, m, j, st1, fuel) == run_win(prog, m + 1, j, st2, fuel));
        assert(run_win(prog, m + 1, j, st2, fuel) == Some(st2));
        lemma_run_win_frame(prog, j + 1, n, j + 1, n, st2, fuel);
        assert(run(prog, st, fuel) == run_win(rest, 0, rest.len() as int, st2, fuel));
        assert forall|i: int| 0 <= i < st.mem.len() implies st2.mem[i] == tgt.mem[i] by {
            if i != st.ptr {
                assert(st2.mem[i] == st1.mem[i]);
            }
        }
        assert(st2.mem =~= tgt.mem);
        assert(st2 == tgt);
    }
}

/// Strength reduction preserves semantics in any surrounding program: with
/// the loop's fuel set aside, the bracketed loop followed by any rest and
/// the reduced form followed by the same rest halt in the same state; and
/// under one shared budget, whenever the original halts, the reduced program
/// halts in the same state.
pub proof fn lemma_strength_reduction_ctx(b: Seq<Inst>, rest: Seq<Inst>, st: State, fuel: nat)
    requires
        valid(st),
        arith_only(b),
        crate::opt::body_displacement(b) == 0,
        sub_counter(b, 0, false),
        disp_bounded(b, 0),
        st.mem[st.ptr] != 0 ==> moves_in_bounds(b, st.ptr, st.mem.len() as int),
        fuel >= st.mem[st.ptr],
    ensures
        run(crate::opt::reduced_loop(b) + rest, st, (fuel - st.mem[st.ptr]) as nat) == run(
            (seq![Inst::LoopStart] + b + seq![Inst::LoopEnd]) + rest,
            st,
            fuel,
        ),
        run((seq![Inst::LoopStart] + b + seq![Inst::LoopEnd]) + rest, st, fuel) is Some ==> run(
            crate::opt::reduced_loop(b) + rest,
            st,
            fuel,
        ) == run((seq![Inst::LoopStart] + b + seq![Inst::LoopEnd]) + rest, st, fuel),
{
    let v = st.mem[st.ptr];
    let tgt = redistributed_general(st, b);
    lemma_bracket_ctx(b, rest, st, fuel);
    lemma_reduced_ctx(b, rest, st, (fuel - v) as nat);
    lemma_reduced_ctx(b, rest, st, fuel);
    if run_win(rest, 0, rest.len() as int, tgt, (fuel - v) as nat) is Some {
        crate::sem::lemma_run_win_fuel_mono(
            rest,
            0,
            rest.len() as int,
            tgt,
            (fuel - v) as nat,
            fuel,
        );
    }
}

/// A program whose loops are all strength-reducible: straight-line
/// instructions and innermost loops whose arithmetic bodies return the
/// pointer and decrement a unit counter, with no other loop or region
/// marker.
pub open spec fn sr_flat(s: Seq<Inst>) -> bool
    decreases s.len(),
    via sr_flat_decreases
{
    if s.len() == 0 {
        true
    } else if s[0] == Inst::LoopStart {
        match crate::opt::inner_end(s) {
            Some(j) => {
                let body = s.subrange(1, j);
                &&& arith_only(body)
                &&& crate::opt::body_displacement(body) == 0
                &&& sub_counter(body, 0, false)
                &&& disp_bounded(body, 0)
                &&& sr_flat(s.skip(j + 1))
            },
            None => false,
        }
    } else if s[0] is LoopEnd || s[0] is SimpleLoopStart || s[0] is SimpleLoopEnd {
        false
    } else {
        sr_flat(s.skip(1))
    }
}

#[via_fn]
proof fn sr_flat_decreases(s: Seq<Inst>) {
    if s.len() > 0 {
        crate::opt::lemma_inner_end_props(s, 1);
    }
}

/// Strength reduction preserves semantics at whole-program scale on flat
/// programs: whenever the input halts, the pass's output halts under the
/// same budget, in the same state.
pub proof fn lemma_reduction_pass_congruence(s: Seq<Inst>, st: State, fuel: nat)
    requires
        sr_flat(s),
        run(s, st, fuel) is Some,
    ensures
        run(crate::opt::opt_loops_spec(s), st, fuel) == run(s, st, fuel),
    decreases s.len(),
{
    if s.len() == 0 {
        assert(crate::opt::opt_loops_spec(s) =~= s);
    } else if s[0] == Inst::LoopStart {
        let j = crate::opt::inner_end(s)->Some_0;
        crate::opt::lemma_inner_end_props(s, 1);
        let body = s.subrange(1, j);
        let rest = s.skip(j + 1);
        assert(s[j] == Inst::LoopEnd);
        assert(s =~= (seq![Inst::LoopStart] + body + seq![Inst::LoopEnd]) + rest);
        assert(run((seq![Inst::LoopStart] + body + seq![Inst::LoopEnd]) + rest, st, fuel) == run(
            s,
            st,
            fuel,
        ));
        lemma_bracket_halting_bounds(body, rest, st, fuel);
        lemma_strength_reduction_ctx(body, rest, st, fuel);
        assert(run(crate::opt::reduced_loop(body) + rest, st, fuel) == run(s, st, fuel));
        let tgt = redistributed_general(st, body);
        lemma_reduced_ctx(body, rest, st, fuel);
        assert(run(rest, tgt, fuel) == run_win(rest, 0, rest.len() as int, tgt, fuel));
        assert(run(rest, tgt, fuel) is Some);
        lemma_reduction_pass_congruence(rest, tgt, fuel);
        lemma_reduced_ctx(body, crate::opt::opt_loops_spec(rest), st, fuel);
        assert(run(crate::opt::opt_loops_spec(rest), tgt, fuel) == run_win(
            crate::opt::opt_loops_spec(rest),
            0,
            crate::opt::opt_loops_spec(rest).len() as int,
            tgt,
            fuel,
        ));
        lemma_arith_no_io(body);
        lemma_sub_counter_implies_lone(body, 0, false);
        assert(crate::opt::is_simple_spec(body));
        assert(crate::opt::reducible(body)) by {
            assert forall|k: int| 0 <= k < body.len() implies crate::opt::reducible_inst(
                #[trigger] body[k],
            ) by {
                assert(body[k] is Add || body[k] is Sub || body[k] is Right || body[k] is Left);
            }
        }
        assert(crate::opt::opt_loops_spec(s) == crate::opt::reduced_loop(body)
            + crate::opt::opt_loops_spec(rest));
    } else {
        let rest = s.skip(1);
        assert(s =~= seq![s[0]] + rest);
        assert(run(seq![s[0]] + rest, st, fuel) == run(s, st, fuel));
        assert forall|st2: State, f2: nat| #[trigger] run(rest, st2, f2) is Some implies run(
            crate::opt::opt_loops_spec(rest),
            st2,
            f2,
        ) == run(rest, st2, f2) by {
            lemma_reduction_pass_congruence(rest, st2, f2);
        }
        lemma_head_congruence_halting(s[0], rest, crate::opt::opt_loops_spec(rest), st, fuel);
        assert(crate::opt::opt_loops_spec(s) == seq![s[0]] + crate::opt::opt_loops_spec(rest));
    }
}

/// The strength-reduction pass really rewrites such a leading loop into its
/// reduced form and goes on with the rest: the body is classified simple and
/// replaced wholesale.
pub proof fn lemma_reduction_pass_general(b: Seq<Inst>, rest: Seq<Inst>)
    requires
        arith_only(b),
        crate::opt::body_displacement(b) == 0,
        sub_counter(b, 0, false),
    ensures
        crate::opt::opt_loops_spec((seq![Inst::LoopStart] + b + seq![Inst::LoopEnd]) + rest)
            == crate::opt::reduced_loop(b) + crate::opt::opt_loops_spec(rest),
{
    let p = (seq![Inst::LoopStart] + b + seq![Inst::LoopEnd]) + rest;
    let j = 1 + b.len() as int;
    assert(p[0] == Inst::LoopStart);
    assert(p[j] == Inst::LoopEnd);
    assert forall|k: int| 1 <= k < j implies #[trigger] p[k] != Inst::LoopStart && p[k]
        != Inst::LoopEnd by {
        assert(p[k] == b[k - 1]);
        assert(b[k - 1] is Add || b[k - 1] is Sub || b[k - 1] is Right || b[k - 1] is Left);
    }
    crate::opt::lemma_inner_end_scan(p, 1, j);
    assert(crate::opt::inner_end(p) == Some(j));
    let body = p.subrange(1, j);
    assert(body =~= b);
    lemma_arith_no_io(b);
    lemma_sub_counter_implies_lone(b, 0, false);
    assert(crate::opt::is_simple_spec(b));
    assert(crate::opt::reducible(b)) by {
        assert forall|k: int| 0 <= k < b.len() implies crate::opt::reducible_inst(
            #[trigger] b[k],
        ) by {
            assert(b[k] is Add || b[k] is Sub || b[k] is Right || b[k] is Left);
        }
    }
    assert(p.skip(j + 1) =~= rest);
}

} // verus!
