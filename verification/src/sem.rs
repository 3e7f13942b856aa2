//! Operational semantics of the IR: a byte tape, a data pointer, an input
//! script and an output log. The optimizer's preservation laws are stated
//! against `run_win`, and a fuelled reference evaluator mirrors it so that
//! programs can actually be executed.

use vstd::prelude::*;

use crate::ir::Inst;

verus! {

/// The mathematical machine state: a finite byte tape, a pointer into it, the
/// bytes still to be read, and the bytes written so far.
pub struct State {
    pub mem: Seq<u8>,
    pub ptr: int,
    pub input: Seq<u8>,
    pub output: Seq<u8>,
}

/// The pointer rests on a tape cell.
pub open spec fn valid(st: State) -> bool {
    0 <= st.ptr < st.mem.len()
}

/// Addition on one 8-bit cell, wrapping naturally.
pub open spec fn wrap_add(a: u8, k: int) -> u8 {
    ((a + k) % 256) as u8
}

/// Subtraction on one 8-bit cell, wrapping naturally.
pub open spec fn wrap_sub(a: u8, k: int) -> u8 {
    ((a - k) % 256) as u8
}

/// Index of the `]` matching a `[`, scanning from `i` within `[i, hi)` with
/// `depth` still-open inner loops.
pub open spec fn match_end(s: Seq<Inst>, i: int, hi: int, depth: nat) -> Option<int>
    decreases hi - i,
{
    if i < 0 || i >= hi || hi > s.len() {
        None
    } else if s[i] == Inst::LoopStart {
        match_end(s, i + 1, hi, depth + 1)
    } else if s[i] == Inst::LoopEnd {
        if depth == 0 {
            Some(i)
        } else {
            match_end(s, i + 1, hi, (depth - 1) as nat)
        }
    } else {
        match_end(s, i + 1, hi, depth)
    }
}

/// Index of the first `SimpleLoopEnd` in `[i, hi)`.
pub open spec fn match_simple_end(s: Seq<Inst>, i: int, hi: int) -> Option<int>
    decreases hi - i,
{
    if i < 0 || i >= hi || hi > s.len() {
        None
    } else if s[i] == Inst::SimpleLoopEnd {
        Some(i)
    } else {
        match_simple_end(s, i + 1, hi)
    }
}

pub proof fn lemma_match_end_range(s: Seq<Inst>, i: int, hi: int, depth: nat)
    ensures
        match match_end(s, i, hi, depth) {
            Some(j) => i <= j < hi && hi <= s.len() && s[j] == Inst::LoopEnd,
            None => true,
        },
    decreases hi - i,
{
    if 0 <= i < hi && hi <= s.len() {
        if s[i] == Inst::LoopStart {
            lemma_match_end_range(s, i + 1, hi, depth + 1);
        } else if s[i] == Inst::LoopEnd {
            if depth != 0 {
                lemma_match_end_range(s, i + 1, hi, (depth - 1) as nat);
            }
        } else {
            lemma_match_end_range(s, i + 1, hi, depth);
        }
    }
}

pub proof fn lemma_match_simple_end_range(s: Seq<Inst>, i: int, hi: int)
    ensures
        match match_simple_end(s, i, hi) {
            Some(j) => i <= j < hi && hi <= s.len() && s[j] == Inst::SimpleLoopEnd,
            None => true,
        },
    decreases hi - i,
{
    if 0 <= i < hi && hi <= s.len() && s[i] != Inst::SimpleLoopEnd {
        lemma_match_simple_end_range(s, i + 1, hi);
    }
}

/// Runs the instruction window `prog[lo .. hi]` from `st`. `fuel` bounds the
/// number of loop iterations taken in all; `None` means the program got
/// stuck (a tape access or move off the tape, a read past the input script,
/// an unmatched loop marker) or ran out of fuel.
pub open spec fn run_win(prog: Seq<Inst>, lo: int, hi: int, st: State, fuel: nat) -> Option<State>
    decreases fuel, hi - lo,
    via run_win_decreases
{
    if !(0 <= lo <= hi <= prog.len()) {
        None
    } else if lo == hi {
        Some(st)
    } else {
        match prog[lo] {
            Inst::Add(ct) => {
                if valid(st) {
                    let st2 = State {
                        mem: st.mem.update(st.ptr, wrap_add(st.mem[st.ptr], ct as int)),
                        ..st
                    };
                    run_win(prog, lo + 1, hi, st2, fuel)
                } else {
                    None
                }
            },
            Inst::Sub(ct) => {
                if valid(st) {
                    let st2 = State {
                        mem: st.mem.update(st.ptr, wrap_sub(st.mem[st.ptr], ct as int)),
                        ..st
                    };
                    run_win(prog, lo + 1, hi, st2, fuel)
                } else {
                    None
                }
            },
            Inst::Right(ct) => {
                if 0 <= st.ptr + ct < st.mem.len() {
                    run_win(prog, lo + 1, hi, State { ptr: st.ptr + ct, ..st }, fuel)
                } else {
                    None
                }
            },
            Inst::Left(ct) => {
                if 0 <= st.ptr - ct < st.mem.len() {
                    run_win(prog, lo + 1, hi, State { ptr: st.ptr - ct, ..st }, fuel)
                } else {
                    None
                }
            },
            Inst::AddFrom(ct, off) => {
                if valid(st) && 0 <= st.ptr + off < st.mem.len() {
                    let q = st.ptr + off;
                    let st2 = State {
                        mem: st.mem.update(q, wrap_add(st.mem[q], ct * st.mem[st.ptr])),
                        ..st
                    };
                    run_win(prog, lo + 1, hi, st2, fuel)
                } else {
                    None
                }
            },
            Inst::SubFrom(ct, off) => {
                if valid(st) && 0 <= st.ptr + off < st.mem.len() {
                    let q = st.ptr + off;
                    let st2 = State {
                        mem: st.mem.update(q, wrap_sub(st.mem[q], ct * st.mem[st.ptr])),
                        ..st
                    };
                    run_win(prog, lo + 1, hi, st2, fuel)
                } else {
                    None
                }
            },
            Inst::Zero(off) => {
                if 0 <= st.ptr + off < st.mem.len() {
                    let st2 = State { mem: st.mem.update(st.ptr + off, 0u8), ..st };
                    run_win(prog, lo + 1, hi, st2, fuel)
                } else {
                    None
                }
            },
            Inst::In => {
                if valid(st) && st.input.len() > 0 {
                    let st2 = State {
                        mem: st.mem.update(st.ptr, st.input[0]),
                        input: st.input.skip(1),
                        ..st
                    };
                    run_win(prog, lo + 1, hi, st2, fuel)
                } else {
                    None
                }
            },
            Inst::Out => {
                if valid(st) {
                    let st2 = State { output: st.output.push(st.mem[st.ptr]), ..st };
                    run_win(prog, lo + 1, hi, st2, fuel)
                } else {
                    None
                }
            },
            Inst::LoopStart => {
                match match_end(prog, lo + 1, hi, 0) {
                    None => None,
                    Some(j) => {
                        if !valid(st) {
                            None
                        } else if st.mem[st.ptr] == 0 {
                            run_win(prog, j + 1, hi, st, fuel)
                        } else if fuel == 0 {
                            None
                        } else {
                            match run_win(prog, lo + 1, j, st, (fuel - 1) as nat) {
                                None => None,
                                Some(st1) => run_win(prog, lo, hi, st1, (fuel - 1) as nat),
                            }
                        }
                    },
                }
            },
            Inst::LoopEnd => None,
            Inst::SimpleLoopStart(off) => {
                match match_simple_end(prog, lo + 1, hi) {
                    None => None,
                    Some(j) => {
                        if !(0 <= st.ptr + off < st.mem.len()) {
                            None
                        } else if st.mem[st.ptr + off] == 0 {
                            run_win(prog, j + 1, hi, st, fuel)
                        } else {
                            match run_win(prog, lo + 1, j, st, fuel) {
                                None => None,
                                Some(st1) => run_win(prog, j + 1, hi, st1, fuel),
                            }
                        }
                    },
                }
            },
            Inst::SimpleLoopEnd => None,
            Inst::Scan(stride) => {
                if !valid(st) {
                    None
                } else if st.mem[st.ptr] == 0 {
                    run_win(prog, lo + 1, hi, st, fuel)
                } else if fuel == 0 {
                    None
                } else if 0 <= st.ptr + stride < st.mem.len() {
                    run_win(prog, lo, hi, State { ptr: st.ptr + stride, ..st }, (fuel - 1) as nat)
                } else {
                    None
                }
            },
        }
    }
}

#[via_fn]
proof fn run_win_decreases(prog: Seq<Inst>, lo: int, hi: int, st: State, fuel: nat) {
    if 0 <= lo < hi <= prog.len() {
        if prog[lo] == Inst::LoopStart {
            lemma_match_end_range(prog, lo + 1, hi, 0);
        }
        if prog[lo] is SimpleLoopStart {
            lemma_match_simple_end_range(prog, lo + 1, hi);
        }
    }
}

/// Runs a whole program.
pub open spec fn run(prog: Seq<Inst>, st: State, fuel: nat) -> Option<State> {
    run_win(prog, 0, prog.len() as int, st, fuel)
}

proof fn lemma_match_end_frame(p: Seq<Inst>, lo: int, hi: int, i: int, b: int, d: nat)
    requires
        0 <= lo <= i,
        i <= b <= hi <= p.len(),
    ensures
        match_end(p.subrange(lo, hi), i - lo, b - lo, d) == match match_end(p, i, b, d) {
            Some(j) => Some(j - lo),
            None => None::<int>,
        },
    decreases b - i,
{
    let sub = p.subrange(lo, hi);
    if i < b {
        assert(sub[i - lo] == p[i]);
        if p[i] == Inst::LoopStart {
            lemma_match_end_frame(p, lo, hi, i + 1, b, d + 1);
        } else if p[i] == Inst::LoopEnd {
            if d != 0 {
                lemma_match_end_frame(p, lo, hi, i + 1, b, (d - 1) as nat);
            }
        } else {
            lemma_match_end_frame(p, lo, hi, i + 1, b, d);
        }
    }
}

proof fn lemma_match_simple_end_frame(p: Seq<Inst>, lo: int, hi: int, i: int, b: int)
    requires
        0 <= lo <= i,
        i <= b <= hi <= p.len(),
    ensures
        match_simple_end(p.subrange(lo, hi), i - lo, b - lo) == match match_simple_end(p, i, b) {
            Some(j) => Some(j - lo),
            None => None::<int>,
        },
    decreases b - i,
{
    let sub = p.subrange(lo, hi);
    if i < b {
        assert(sub[i - lo] == p[i]);
        if p[i] != Inst::SimpleLoopEnd {
            lemma_match_simple_end_frame(p, lo, hi, i + 1, b);
        }
    }
}

/// Fuel only cuts runs short: a run that halts within some budget halts in
/// the same state under any larger budget.
pub proof fn lemma_run_win_fuel_mono(
    p: Seq<Inst>,
    lo: int,
    hi: int,
    st: State,
    f: nat,
    f2: nat,
)
    requires
        run_win(p, lo, hi, st, f) is Some,
        f <= f2,
    ensures
        run_win(p, lo, hi, st, f2) == run_win(p, lo, hi, st, f),
    decreases f, hi - lo,
{
    if 0 <= lo < hi <= p.len() {
        match p[lo] {
            Inst::Add(ct) => {
                let st2 = State {
                    mem: st.mem.update(st.ptr, wrap_add(st.mem[st.ptr], ct as int)),
                    ..st
                };
                lemma_run_win_fuel_mono(p, lo + 1, hi, st2, f, f2);
            },
            Inst::Sub(ct) => {
                let st2 = State {
                    mem: st.mem.update(st.ptr, wrap_sub(st.mem[st.ptr], ct as int)),
                    ..st
                };
                lemma_run_win_fuel_mono(p, lo + 1, hi, st2, f, f2);
            },
            Inst::Right(ct) => {
                lemma_run_win_fuel_mono(p, lo + 1, hi, State { ptr: st.ptr + ct, ..st }, f, f2);
            },
            Inst::Left(ct) => {
                lemma_run_win_fuel_mono(p, lo + 1, hi, State { ptr: st.ptr - ct, ..st }, f, f2);
            },
            Inst::AddFrom(ct, off) => {
                let q = st.ptr + off;
                let st2 = State {
                    mem: st.mem.update(q, wrap_add(st.mem[q], ct * st.mem[st.ptr])),
                    ..st
                };
                lemma_run_win_fuel_mono(p, lo + 1, hi, st2, f, f2);
            },
            Inst::SubFrom(ct, off) => {
                let q = st.ptr + off;
                let st2 = State {
                    mem: st.mem.update(q, wrap_sub(st.mem[q], ct * st.mem[st.ptr])),
                    ..st
                };
                lemma_run_win_fuel_mono(p, lo + 1, hi, st2, f, f2);
            },
            Inst::Zero(off) => {
                let st2 = State { mem: st.mem.update(st.ptr + off, 0u8), ..st };
                lemma_run_win_fuel_mono(p, lo + 1, hi, st2, f, f2);
            },
            Inst::In => {
                let st2 = State {
                    mem: st.mem.update(st.ptr, st.input[0]),
                    input: st.input.skip(1),
                    ..st
                };
                lemma_run_win_fuel_mono(p, lo + 1, hi, st2, f, f2);
            },
            Inst::Out => {
                let st2 = State { output: st.output.push(st.mem[st.ptr]), ..st };
                lemma_run_win_fuel_mono(p, lo + 1, hi, st2, f, f2);
            },
            Inst::LoopStart => {
                match match_end(p, lo + 1, hi, 0) {
                    None => {},
                    Some(j) => {
                        lemma_match_end_range(p, lo + 1, hi, 0);
                        if st.mem[st.ptr] == 0 {
                            lemma_run_win_fuel_mono(p, j + 1, hi, st, f, f2);
                        } else {
                            let g1 = (f - 1) as nat;
                            let g2 = (f2 - 1) as nat;
                            lemma_run_win_fuel_mono(p, lo + 1, j, st, g1, g2);
                            match run_win(p, lo + 1, j, st, g1) {
                                None => {},
                                Some(st1) => {
                                    lemma_run_win_fuel_mono(p, lo, hi, st1, g1, g2);
                                },
                            }
                        }
                    },
                }
            },
            Inst::LoopEnd => {},
            Inst::SimpleLoopStart(off) => {
                match match_simple_end(p, lo + 1, hi) {
                    None => {},
                    Some(j) => {
                        lemma_match_simple_end_range(p, lo + 1, hi);
                        if !(0 <= st.ptr + off < st.mem.len()) {
                        } else if st.mem[st.ptr + off] == 0 {
                            lemma_run_win_fuel_mono(p, j + 1, hi, st, f, f2);
                        } else {
                            lemma_run_win_fuel_mono(p, lo + 1, j, st, f, f2);
                            match run_win(p, lo + 1, j, st, f) {
                                None => {},
                                Some(st1) => {
                                    lemma_run_win_fuel_mono(p, j + 1, hi, st1, f, f2);
                                },
                            }
                        }
                    },
                }
            },
            Inst::SimpleLoopEnd => {},
            Inst::Scan(stride) => {
                if st.mem[st.ptr] == 0 {
                    lemma_run_win_fuel_mono(p, lo + 1, hi, st, f, f2);
                } else {
                    lemma_run_win_fuel_mono(
                        p,
                        lo,
                        hi,
                        State { ptr: st.ptr + stride, ..st },
                        (f - 1) as nat,
                        (f2 - 1) as nat,
                    );
                }
            },
        }
    }
}

/// Framing: running a window looks only at the window's instructions, so the
/// run is unchanged when the window is cut out of its program.
pub proof fn lemma_run_win_frame(
    p: Seq<Inst>,
    lo: int,
    hi: int,
    a: int,
    b: int,
    st: State,
    fuel: nat,
)
    requires
        0 <= lo <= a <= b <= hi <= p.len(),
    ensures
        run_win(p, a, b, st, fuel) == run_win(p.subrange(lo, hi), a - lo, b - lo, st, fuel),
    decreases fuel, b - a,
{
    let sub = p.subrange(lo, hi);
    if a < b {
        assert(sub[a - lo] == p[a]);
        match p[a] {
            Inst::Add(ct) => {
                if valid(st) {
                    let st2 = State {
                        mem: st.mem.update(st.ptr, wrap_add(st.mem[st.ptr], ct as int)),
                        ..st
                    };
                    lemma_run_win_frame(p, lo, hi, a + 1, b, st2, fuel);
                }
            },
            Inst::Sub(ct) => {
                if valid(st) {
                    let st2 = State {
                        mem: st.mem.update(st.ptr, wrap_sub(st.mem[st.ptr], ct as int)),
                        ..st
                    };
                    lemma_run_win_frame(p, lo, hi, a + 1, b, st2, fuel);
                }
            },
            Inst::Right(ct) => {
                if 0 <= st.ptr + ct < st.mem.len() {
                    lemma_run_win_frame(p, lo, hi, a + 1, b, State { ptr: st.ptr + ct, ..st }, fuel);
                }
            },
            Inst::Left(ct) => {
                if 0 <= st.ptr - ct < st.mem.len() {
                    lemma_run_win_frame(p, lo, hi, a + 1, b, State { ptr: st.ptr - ct, ..st }, fuel);
                }
            },
            Inst::AddFrom(ct, off) => {
                if valid(st) && 0 <= st.ptr + off < st.mem.len() {
                    let q = st.ptr + off;
                    let st2 = State {
                        mem: st.mem.update(q, wrap_add(st.mem[q], ct * st.mem[st.ptr])),
                        ..st
                    };
                    lemma_run_win_frame(p, lo, hi, a + 1, b, st2, fuel);
                }
            },
            Inst::SubFrom(ct, off) => {
                if valid(st) && 0 <= st.ptr + off < st.mem.len() {
                    let q = st.ptr + off;
                    let st2 = State {
                        mem: st.mem.update(q, wrap_sub(st.mem[q], ct * st.mem[st.ptr])),
                        ..st
                    };
                    lemma_run_win_frame(p, lo, hi, a + 1, b, st2, fuel);
                }
            },
            Inst::Zero(off) => {
                if 0 <= st.ptr + off < st.mem.len() {
                    let st2 = State { mem: st.mem.update(st.ptr + off, 0u8), ..st };
                    lemma_run_win_frame(p, lo, hi, a + 1, b, st2, fuel);
                }
            },
            Inst::In => {
                if valid(st) && st.input.len() > 0 {
                    let st2 = State {
                        mem: st.mem.update(st.ptr, st.input[0]),
                        input: st.input.skip(1),
                        ..st
                    };
                    lemma_run_win_frame(p, lo, hi, a + 1, b, st2, fuel);
                }
            },
            Inst::Out => {
                if valid(st) {
                    let st2 = State { output: st.output.push(st.mem[st.ptr]), ..st };
                    lemma_run_win_frame(p, lo, hi, a + 1, b, st2, fuel);
                }
            },
            Inst::LoopStart => {
                lemma_match_end_frame(p, lo, hi, a + 1, b, 0);
                match match_end(p, a + 1, b, 0) {
                    None => {},
                    Some(j) => {
                        lemma_match_end_range(p, a + 1, b, 0);
                        if !valid(st) {
                        } else if st.mem[st.ptr] == 0 {
                            lemma_run_win_frame(p, lo, hi, j + 1, b, st, fuel);
                        } else if fuel == 0 {
                        } else {
                            let f1 = (fuel - 1) as nat;
                            lemma_run_win_frame(p, lo, hi, a + 1, j, st, f1);
                            match run_win(p, a + 1, j, st, f1) {
                                None => {},
                                Some(st1) => {
                                    lemma_run_win_frame(p, lo, hi, a, b, st1, f1);
                                },
                            }
                        }
                    },
                }
            },
            Inst::LoopEnd => {},
            Inst::SimpleLoopStart(off) => {
                lemma_match_simple_end_frame(p, lo, hi, a + 1, b);
                match match_simple_end(p, a + 1, b) {
                    None => {},
                    Some(j) => {
                        lemma_match_simple_end_range(p, a + 1, b);
                        if !(0 <= st.ptr + off < st.mem.len()) {
                        } else if st.mem[st.ptr + off] == 0 {
                            lemma_run_win_frame(p, lo, hi, j + 1, b, st, fuel);
                        } else {
                            lemma_run_win_frame(p, lo, hi, a + 1, j, st, fuel);
                            match run_win(p, a + 1, j, st, fuel) {
                                None => {},
                                Some(st1) => {
                                    lemma_run_win_frame(p, lo, hi, j + 1, b, st1, fuel);
                                },
                            }
                        }
                    },
                }
            },
            Inst::SimpleLoopEnd => {},
            Inst::Scan(stride) => {
                if !valid(st) {
                } else if st.mem[st.ptr] == 0 {
                    lemma_run_win_frame(p, lo, hi, a + 1, b, st, fuel);
                } else if fuel == 0 {
                } else if 0 <= st.ptr + stride < st.mem.len() {
                    lemma_run_win_frame(
                        p,
                        lo,
                        hi,
                        a,
                        b,
                        State { ptr: st.ptr + stride, ..st },
                        (fuel - 1) as nat,
                    );
                }
            },
        }
    }
}

/// An executable machine: the concrete counterpart of `State`.
pub struct Machine {
    pub mem: Vec<u8>,
    pub ptr: usize,
    pub input: Vec<u8>,
    pub output: Vec<u8>,
}

impl View for Machine {
    type V = State;

    open spec fn view(&self) -> State {
        State { mem: self.mem@, ptr: self.ptr as int, input: self.input@, output: self.output@ }
    }
}

fn add_wrapped(a: u8, ct: usize) -> (r: u8)
    ensures
        r == wrap_add(a, ct as int),
{
    proof {
        vstd::arithmetic::div_mod::lemma_add_mod_noop(a as int, ct as int, 256);
        vstd::arithmetic::div_mod::lemma_mod_twice(ct as int, 256);
        vstd::arithmetic::div_mod::lemma_add_mod_noop(a as int, (ct as int) % 256, 256);
        assert((a + ct) % 256 == (a + (ct as int) % 256) % 256);
    }
    (((a as usize) + ct % 256) % 256) as u8
}

fn sub_wrapped(a: u8, ct: usize) -> (r: u8)
    ensures
        r == wrap_sub(a, ct as int),
{
    proof {
        vstd::arithmetic::div_mod::lemma_sub_mod_noop(a as int, ct as int, 256);
        vstd::arithmetic::div_mod::lemma_mod_twice(ct as int, 256);
        vstd::arithmetic::div_mod::lemma_sub_mod_noop(a as int, (ct as int) % 256, 256);
        assert((a - ct) % 256 == (a - (ct as int) % 256) % 256);
        vstd::arithmetic::div_mod::lemma_mod_add_multiples_vanish(
            a - (ct as int) % 256,
            256,
        );
        assert((a - ct) % 256 == (a + 256 - (ct as int) % 256) % 256);
    }
    (((a as usize) + 256 - ct % 256) % 256) as u8
}

fn mul_add_wrapped(x: u8, ct: usize, y: u8) -> (r: u8)
    ensures
        r == wrap_add(x, ct * (y as int)),
{
    proof {
        vstd::arithmetic::div_mod::lemma_mul_mod_noop_left(ct as int, y as int, 256);
        vstd::arithmetic::div_mod::lemma_mod_twice(ct as int, 256);
        vstd::arithmetic::div_mod::lemma_mul_mod_noop_left((ct as int) % 256, y as int, 256);
        assert((ct * y) % 256 == (((ct as int) % 256) * y) % 256);
        vstd::arithmetic::div_mod::lemma_add_mod_noop(x as int, ct * (y as int), 256);
        vstd::arithmetic::div_mod::lemma_mod_twice(ct * (y as int), 256);
        vstd::arithmetic::div_mod::lemma_add_mod_noop(x as int, (ct * (y as int)) % 256, 256);
        vstd::arithmetic::div_mod::lemma_mod_twice((((ct as int) % 256) * y), 256);
        vstd::arithmetic::div_mod::lemma_add_mod_noop(
            x as int,
            (((ct as int) % 256) * y) % 256,
            256,
        );
        assert((x + ct * y) % 256 == (x + ((ct as int) % 256) * y % 256) % 256);
        assert((ct % 256) * y <= 255 * 255) by (nonlinear_arith)
            requires ct % 256 <= 255 && y <= 255;
    }
    (((x as usize) + ((ct % 256) * (y as usize)) % 256) % 256) as u8
}

fn mul_sub_wrapped(x: u8, ct: usize, y: u8) -> (r: u8)
    ensures
        r == wrap_sub(x, ct * (y as int)),
{
    proof {
        vstd::arithmetic::div_mod::lemma_mul_mod_noop_left(ct as int, y as int, 256);
        vstd::arithmetic::div_mod::lemma_mod_twice(ct as int, 256);
        vstd::arithmetic::div_mod::lemma_mul_mod_noop_left((ct as int) % 256, y as int, 256);
        assert((ct * y) % 256 == (((ct as int) % 256) * y) % 256);
        vstd::arithmetic::div_mod::lemma_sub_mod_noop(x as int, ct * (y as int), 256);
        vstd::arithmetic::div_mod::lemma_mod_twice(ct * (y as int), 256);
        vstd::arithmetic::div_mod::lemma_sub_mod_noop(x as int, (ct * (y as int)) % 256, 256);
        vstd::arithmetic::div_mod::lemma_mod_twice((((ct as int) % 256) * y), 256);
        vstd::arithmetic::div_mod::lemma_sub_mod_noop(
            x as int,
            (((ct as int) % 256) * y) % 256,
            256,
        );
        assert((x - ct * y) % 256 == (x - ((ct as int) % 256) * y % 256) % 256);
        vstd::arithmetic::div_mod::lemma_mod_add_multiples_vanish(
            x - (((ct as int) % 256) * y) % 256,
            256,
        );
        assert((ct % 256) * y <= 255 * 255) by (nonlinear_arith)
            requires ct % 256 <= 255 && y <= 255;
    }
    (((x as usize) + 256 - ((ct % 256) * (y as usize)) % 256) % 256) as u8
}

fn find_match(prog: &Vec<Inst>, lo: usize, hi: usize) -> (r: Option<usize>)
    requires
        lo <= hi <= prog@.len(),
    ensures
        match r {
            Some(j) => match_end(prog@, lo as int, hi as int, 0) == Some(j as int),
            None => match_end(prog@, lo as int, hi as int, 0) is None,
        },
{
    let mut i = lo;
    let mut depth: usize = 0;
    while i < hi
        invariant
            lo <= i <= hi <= prog@.len(),
            depth <= i,
            match_end(prog@, lo as int, hi as int, 0) == match_end(
                prog@,
                i as int,
                hi as int,
                depth as nat,
            ),
        decreases hi - i,
    {
        let ins = prog[i];
        if ins == Inst::LoopEnd {
            if depth == 0 {
                return Some(i);
            }
            depth = depth - 1;
        } else if ins == Inst::LoopStart {
            depth = depth + 1;
        }
        i = i + 1;
    }
    None
}

fn find_simple_match(prog: &Vec<Inst>, lo: usize, hi: usize) -> (r: Option<usize>)
    requires
        lo <= hi <= prog@.len(),
    ensures
        match r {
            Some(j) => match_simple_end(prog@, lo as int, hi as int) == Some(j as int),
            None => match_simple_end(prog@, lo as int, hi as int) is None,
        },
{
    let mut i = lo;
    while i < hi
        invariant
            lo <= i <= hi <= prog@.len(),
            match_simple_end(prog@, lo as int, hi as int) == match_simple_end(
                prog@,
                i as int,
                hi as int,
            ),
        decreases hi - i,
    {
        if prog[i] == Inst::SimpleLoopEnd {
            return Some(i);
        }
        i = i + 1;
    }
    None
}

/// Runs the instruction window `prog[lo .. hi]` on a concrete machine,
/// computing exactly what the semantics says.
pub fn run_ir(prog: &Vec<Inst>, lo: usize, hi: usize, m: Machine, fuel: u64) -> (r: Option<
    Machine,
>)
    requires
        lo <= hi <= prog@.len(),
    ensures
        match r {
            Some(m2) => run_win(prog@, lo as int, hi as int, m@, fuel as nat) == Some(m2@),
            None => run_win(prog@, lo as int, hi as int, m@, fuel as nat) is None,
        },
    decreases fuel, hi - lo,
{
    if lo == hi {
        return Some(m);
    }
    let mut m = m;
    let ghost st0 = m@;
    let n = m.mem.len();
    match prog[lo] {
        Inst::Add(ct) => {
            if m.ptr < n {
                let v = add_wrapped(m.mem[m.ptr], ct);
                m.mem.set(m.ptr, v);
                run_ir(prog, lo + 1, hi, m, fuel)
            } else {
                None
            }
        },
        Inst::Sub(ct) => {
            if m.ptr < n {
                let v = sub_wrapped(m.mem[m.ptr], ct);
                m.mem.set(m.ptr, v);
                run_ir(prog, lo + 1, hi, m, fuel)
            } else {
                None
            }
        },
        Inst::Right(ct) => {
            if ct <= usize::MAX - m.ptr && m.ptr + ct < n {
                m.ptr = m.ptr + ct;
                run_ir(prog, lo + 1, hi, m, fuel)
            } else {
                proof {
                    assert(!(0 <= st0.ptr + ct < st0.mem.len()));
                }
                None
            }
        },
        Inst::Left(ct) => {
            if ct <= m.ptr && m.ptr - ct < n {
                m.ptr = m.ptr - ct;
                run_ir(prog, lo + 1, hi, m, fuel)
            } else {
                None
            }
        },
        Inst::AddFrom(ct, off) => {
            let q = (m.ptr as i128) + (off as i128);
            if m.ptr < n && 0 <= q && q < n as i128 {
                let qi = q as usize;
                let v = mul_add_wrapped(m.mem[qi], ct, m.mem[m.ptr]);
                m.mem.set(qi, v);
                run_ir(prog, lo + 1, hi, m, fuel)
            } else {
                None
            }
        },
        Inst::SubFrom(ct, off) => {
            let q = (m.ptr as i128) + (off as i128);
            if m.ptr < n && 0 <= q && q < n as i128 {
                let qi = q as usize;
                let v = mul_sub_wrapped(m.mem[qi], ct, m.mem[m.ptr]);
                m.mem.set(qi, v);
                run_ir(prog, lo + 1, hi, m, fuel)
            } else {
                None
            }
        },
        Inst::Zero(off) => {
            let q = (m.ptr as i128) + (off as i128);
            if 0 <= q && q < n as i128 {
                m.mem.set(q as usize, 0);
                run_ir(prog, lo + 1, hi, m, fuel)
            } else {
                None
            }
        },
        Inst::In => {
            if m.ptr < n && m.input.len() > 0 {
                let b = m.input.remove(0);
                m.mem.set(m.ptr, b);
                proof {
                    assert(m.input@ =~= st0.input.skip(1));
                }
                run_ir(prog, lo + 1, hi, m, fuel)
            } else {
                None
            }
        },
        Inst::Out => {
            if m.ptr < n {
                let b = m.mem[m.ptr];
                m.output.push(b);
                run_ir(prog, lo + 1, hi, m, fuel)
            } else {
                None
            }
        },
        Inst::LoopStart => {
            match find_match(prog, lo + 1, hi) {
                None => None,
                Some(j) => {
                    proof {
                        lemma_match_end_range(prog@, lo + 1, hi as int, 0);
                    }
                    if m.ptr >= n {
                        None
                    } else if m.mem[m.ptr] == 0 {
                        run_ir(prog, j + 1, hi, m, fuel)
                    } else if fuel == 0 {
                        None
                    } else {
                        match run_ir(prog, lo + 1, j, m, fuel - 1) {
                            None => None,
                            Some(m1) => run_ir(prog, lo, hi, m1, fuel - 1),
                        }
                    }
                },
            }
        },
        Inst::LoopEnd => None,
        Inst::SimpleLoopStart(off) => {
            match find_simple_match(prog, lo + 1, hi) {
                None => None,
                Some(j) => {
                    proof {
                        lemma_match_simple_end_range(prog@, lo + 1, hi as int);
                    }
                    let q = (m.ptr as i128) + (off as i128);
                    if !(0 <= q && q < n as i128) {
                        None
                    } else if m.mem[q as usize] == 0 {
                        run_ir(prog, j + 1, hi, m, fuel)
                    } else {
                        match run_ir(prog, lo + 1, j, m, fuel) {
                            None => None,
                            Some(m1) => run_ir(prog, j + 1, hi, m1, fuel),
                        }
                    }
                },
            }
        },
        Inst::SimpleLoopEnd => None,
        Inst::Scan(stride) => {
            if m.ptr >= n {
                None
            } else if m.mem[m.ptr] == 0 {
                run_ir(prog, lo + 1, hi, m, fuel)
            } else if fuel == 0 {
                None
            } else {
                let p2 = (m.ptr as i128) + (stride as i128);
                if 0 <= p2 && p2 < n as i128 {
                    m.ptr = p2 as usize;
                    run_ir(prog, lo, hi, m, fuel - 1)
                } else {
                    None
                }
            }
        },
    }
}

/// Runs a whole program on a concrete machine.
pub fn run_program(prog: &Vec<Inst>, m: Machine, fuel: u64) -> (r: Option<Machine>)
    ensures
        match r {
            Some(m2) => run(prog@, m@, fuel as nat) == Some(m2@),
            None => run(prog@, m@, fuel as nat) is None,
        },
{
    let hi = prog.len();
    run_ir(prog, 0, hi, m, fuel)
}

} // verus!
