//! The optimizer passes: dead-loop-to-zero rewriting, vectorizable-scan
//! recognition, loop classification and induction-variable strength reduction.

use vstd::prelude::*;

use crate::ir::{
    lemma_run_depth_concat, lemma_run_depth_flat, lemma_run_depth_singleton,
    lemma_sum_counts_nonneg, lemma_sum_counts_split, loop_delta, run_depth, sum_counts, Inst, IR,
};

verus! {

/// A `[` `+`/`-` `]` window: a loop whose body only moves the current cell by
/// a fixed amount, which (when it terminates) always leaves the cell at zero.
pub open spec fn cz_match(s: Seq<Inst>) -> bool {
    &&& s.len() >= 3
    &&& s[0] == Inst::LoopStart
    &&& (s[1] is Add || s[1] is Sub)
    &&& s[2] == Inst::LoopEnd
}

/// What cell-zero rewriting yields: each leftmost-first `[` `+`/`-` `]`
/// window becomes a direct zero-store; everything else passes through.
pub open spec fn cell_zero_spec(s: Seq<Inst>) -> Seq<Inst>
    decreases s.len(),
{
    if s.len() == 0 {
        Seq::empty()
    } else if cz_match(s) {
        seq![Inst::Zero(0)] + cell_zero_spec(s.skip(3))
    } else {
        seq![s[0]] + cell_zero_spec(s.skip(1))
    }
}

fn is_add_or_sub(i: Inst) -> (r: bool)
    ensures
        r == (i is Add || i is Sub),
{
    match i {
        Inst::Add(_) | Inst::Sub(_) => true,
        _ => false,
    }
}

/// Sliding-window rewrite of every decrement-to-zero idiom `[`, `+`/`-` with
/// any count, `]` (at any nesting depth) into `Zero(0)`.
pub fn cell_zero(ir: &IR) -> (res: IR)
    ensures
        res@ == cell_zero_spec(ir@),
{
    let mut res: IR = Vec::new();
    let n = ir.len();
    let mut idx: usize = 0;
    proof {
        assert(ir@.skip(0) =~= ir@);
        assert(Seq::<Inst>::empty() + cell_zero_spec(ir@) =~= cell_zero_spec(ir@));
    }
    while idx < n
        invariant
            n == ir@.len(),
            idx <= n,
            cell_zero_spec(ir@) == res@ + cell_zero_spec(ir@.skip(idx as int)),
        decreases n - idx,
    {
        let s = Ghost(ir@.skip(idx as int));
        proof {
            assert(s@[0] == ir@[idx as int]);
            if idx + 2 < n {
                assert(s@[1] == ir@[idx + 1]);
                assert(s@[2] == ir@[idx + 2]);
            }
        }
        if n - idx > 2 && ir[idx] == Inst::LoopStart && is_add_or_sub(ir[idx + 1]) && ir[idx + 2]
            == Inst::LoopEnd {
            res.push(Inst::Zero(0));
            proof {
                assert(cz_match(s@));
                assert(s@.skip(3) =~= ir@.skip(idx + 3));
                assert(cell_zero_spec(ir@) =~= res@ + cell_zero_spec(ir@.skip(idx + 3)));
            }
            idx = idx + 3;
        } else {
            res.push(ir[idx]);
            proof {
                assert(!cz_match(s@));
                assert(s@.skip(1) =~= ir@.skip(idx + 1));
                assert(cell_zero_spec(ir@) =~= res@ + cell_zero_spec(ir@.skip(idx + 1)));
            }
            idx = idx + 1;
        }
    }
    proof {
        assert(ir@.skip(n as int) =~= Seq::<Inst>::empty());
        assert(cell_zero_spec(ir@) =~= res@);
    }
    res
}

/// A `[` move `]` window whose stride has a vectorized lowering: rightward
/// strides 1, 2 or 4, leftward strides 1 or 2.
pub open spec fn scan_match(s: Seq<Inst>) -> bool {
    &&& s.len() >= 3
    &&& s[0] == Inst::LoopStart
    &&& s[2] == Inst::LoopEnd
    &&& match s[1] {
        Inst::Right(ct) => ct == 1 || ct == 2 || ct == 4,
        Inst::Left(ct) => ct == 1 || ct == 2,
        _ => false,
    }
}

/// The signed stride such a window scans by (leftward is negative).
pub open spec fn stride_of(i: Inst) -> i32 {
    match i {
        Inst::Right(ct) => ct as i32,
        Inst::Left(ct) => (0 - ct as int) as i32,
        _ => 0,
    }
}

/// What scan recognition yields: each supported `[` move `]` window becomes
/// one `Scan` op; unsupported strides are left unrewritten.
pub open spec fn scan_opt_spec(s: Seq<Inst>) -> Seq<Inst>
    decreases s.len(),
{
    if s.len() == 0 {
        Seq::empty()
    } else if scan_match(s) {
        seq![Inst::Scan(stride_of(s[1]))] + scan_opt_spec(s.skip(3))
    } else {
        seq![s[0]] + scan_opt_spec(s.skip(1))
    }
}

fn supported_stride(i: Inst) -> (r: Option<i32>)
    ensures
        match r {
            Some(st) => (match i {
                Inst::Right(ct) => ct == 1 || ct == 2 || ct == 4,
                Inst::Left(ct) => ct == 1 || ct == 2,
                _ => false,
            }) && st == stride_of(i),
            None => !(match i {
                Inst::Right(ct) => ct == 1 || ct == 2 || ct == 4,
                Inst::Left(ct) => ct == 1 || ct == 2,
                _ => false,
            }),
        },
{
    match i {
        Inst::Right(ct) => {
            if ct == 1 || ct == 2 || ct == 4 {
                Some(ct as i32)
            } else {
                None
            }
        },
        Inst::Left(ct) => {
            if ct == 1 {
                Some(-1)
            } else if ct == 2 {
                Some(-2)
            } else {
                None
            }
        },
        _ => None,
    }
}

/// Sliding-window rewrite of every bounded-stride scan loop `[` `>`/`<` `]`
/// (stride 1, 2 or 4 rightward; 1 or 2 leftward) into a single `Scan` op.
pub fn scan_opt(ir: &IR) -> (res: IR)
    ensures
        res@ == scan_opt_spec(ir@),
{
    let mut res: IR = Vec::new();
    let n = ir.len();
    let mut idx: usize = 0;
    proof {
        assert(ir@.skip(0) =~= ir@);
        assert(Seq::<Inst>::empty() + scan_opt_spec(ir@) =~= scan_opt_spec(ir@));
    }
    while idx < n
        invariant
            n == ir@.len(),
            idx <= n,
            scan_opt_spec(ir@) == res@ + scan_opt_spec(ir@.skip(idx as int)),
        decreases n - idx,
    {
        let s = Ghost(ir@.skip(idx as int));
        proof {
            assert(s@[0] == ir@[idx as int]);
            if idx + 2 < n {
                assert(s@[1] == ir@[idx + 1]);
                assert(s@[2] == ir@[idx + 2]);
            }
        }
        let mut rewrote = false;
        if n - idx > 2 && ir[idx] == Inst::LoopStart && ir[idx + 2] == Inst::LoopEnd {
            if let Some(stride) = supported_stride(ir[idx + 1]) {
                res.push(Inst::Scan(stride));
                proof {
                    assert(scan_match(s@));
                    assert(s@.skip(3) =~= ir@.skip(idx + 3));
                    assert(scan_opt_spec(ir@) =~= res@ + scan_opt_spec(ir@.skip(idx + 3)));
                }
                idx = idx + 3;
                rewrote = true;
            }
        }
        if !rewrote {
            res.push(ir[idx]);
            proof {
                assert(!scan_match(s@));
                assert(s@.skip(1) =~= ir@.skip(idx + 1));
                assert(scan_opt_spec(ir@) =~= res@ + scan_opt_spec(ir@.skip(idx + 1)));
            }
            idx = idx + 1;
        }
    }
    proof {
        assert(ir@.skip(n as int) =~= Seq::<Inst>::empty());
        assert(scan_opt_spec(ir@) =~= res@);
    }
    res
}

/// The innermost loop spans of a program, collected left to right while
/// remembering only the most recent unmatched `[`: each span is a `[` and the
/// first following `]` with no other loop marker between them.
pub open spec fn inner_loops_from(s: Seq<Inst>, i: int, top: Option<int>) -> Seq<(int, int)>
    decreases s.len() - i,
{
    if i < 0 || i >= s.len() {
        Seq::empty()
    } else if s[i] == Inst::LoopStart {
        inner_loops_from(s, i + 1, Some(i))
    } else if s[i] == Inst::LoopEnd {
        match top {
            Some(x) => seq![(x, i)] + inner_loops_from(s, i + 1, None),
            None => inner_loops_from(s, i + 1, None),
        }
    } else {
        inner_loops_from(s, i + 1, top)
    }
}

pub open spec fn inner_loops_spec(s: Seq<Inst>) -> Seq<(int, int)> {
    inner_loops_from(s, 0, None)
}

/// Collects the spans of every innermost loop: a `(start, end)` index pair
/// per `[` ... `]` whose body holds no further loop marker.
pub fn get_inner_loops(ir: &IR) -> (res: Vec<(usize, usize)>)
    ensures
        res@.map_values(|p: (usize, usize)| (p.0 as int, p.1 as int)) == inner_loops_spec(ir@),
{
    let mut res: Vec<(usize, usize)> = Vec::new();
    let n = ir.len();
    let mut idx: usize = 0;
    let mut top: Option<usize> = None;
    proof {
        assert(res@.map_values(|p: (usize, usize)| (p.0 as int, p.1 as int)) + inner_loops_from(
            ir@,
            0,
            None,
        ) =~= inner_loops_spec(ir@));
    }
    while idx < n
        invariant
            n == ir@.len(),
            idx <= n,
            match top {
                Some(x) => x < idx,
                None => true,
            },
            inner_loops_spec(ir@) == res@.map_values(|p: (usize, usize)| (p.0 as int, p.1 as int))
                + inner_loops_from(
                ir@,
                idx as int,
                match top {
                    Some(x) => Some(x as int),
                    None => None,
                },
            ),
        decreases n - idx,
    {
        let ins = ir[idx];
        if ins == Inst::LoopStart {
            top = Some(idx);
        } else if ins == Inst::LoopEnd {
            match top {
                None => (),
                Some(x) => {
                    res.push((x, idx));
                    proof {
                        assert(res@.map_values(|p: (usize, usize)| (p.0 as int, p.1 as int))
                            =~= res@.drop_last().map_values(
                            |p: (usize, usize)| (p.0 as int, p.1 as int),
                        ).push((x as int, idx as int)));
                    }
                    top = None;
                },
            }
        }
        idx = idx + 1;
    }
    res
}

/// Net pointer displacement of a loop body: moves right count up, moves left
/// count down, everything else counts nothing.
pub open spec fn body_displacement(s: Seq<Inst>) -> int
    decreases s.len(),
{
    if s.len() == 0 {
        0
    } else {
        (match s[0] {
            Inst::Right(ct) => ct as int,
            Inst::Left(ct) => -(ct as int),
            _ => 0,
        }) + body_displacement(s.skip(1))
    }
}

/// No input or output instruction anywhere in the body.
pub open spec fn no_io(s: Seq<Inst>) -> bool
    decreases s.len(),
{
    s.len() == 0 || (!(s[0] is In) && !(s[0] is Out) && no_io(s.skip(1)))
}

/// Walking the body left to right with running displacement `dp`: at most one
/// `Add`/`Sub` may sit at displacement zero (`seen` records whether one did
/// already), and it must carry count exactly 1.
pub open spec fn lone_unit_counter(s: Seq<Inst>, dp: int, seen: bool) -> bool
    decreases s.len(),
{
    if s.len() == 0 {
        true
    } else {
        match s[0] {
            Inst::Right(ct) => lone_unit_counter(s.skip(1), dp + ct, seen),
            Inst::Left(ct) => lone_unit_counter(s.skip(1), dp - ct, seen),
            Inst::Add(ct) | Inst::Sub(ct) => {
                if dp == 0 {
                    ct == 1 && !seen && lone_unit_counter(s.skip(1), dp, true)
                } else {
                    lone_unit_counter(s.skip(1), dp, seen)
                }
            },
            _ => lone_unit_counter(s.skip(1), dp, seen),
        }
    }
}

/// A loop body eligible for strength reduction: no I/O, zero net pointer
/// displacement, and a single displacement-zero counter update of count 1.
pub open spec fn is_simple_spec(body: Seq<Inst>) -> bool {
    &&& no_io(body)
    &&& body_displacement(body) == 0
    &&& lone_unit_counter(body, 0, false)
}

proof fn lemma_body_displacement_bound(s: Seq<Inst>)
    ensures
        -sum_counts(s) <= body_displacement(s) <= sum_counts(s),
    decreases s.len(),
{
    if s.len() > 0 {
        lemma_body_displacement_bound(s.skip(1));
    }
}

proof fn lemma_sum_counts_sub_le(s: Seq<Inst>, i: int, j: int)
    requires
        0 <= i <= j <= s.len(),
    ensures
        0 <= sum_counts(s.subrange(i, j)) <= sum_counts(s),
    decreases j - i,
{
    lemma_sum_counts_split(s, i);
    lemma_sum_counts_split(s.skip(i), j - i);
    lemma_sum_counts_nonneg(s.subrange(i, j));
    lemma_sum_counts_nonneg(s.take(i));
    lemma_sum_counts_nonneg(s.skip(i).skip(j - i));
    assert(s.skip(i).take(j - i) =~= s.subrange(i, j));
}

/// Classifies the loop spanning `ir[start ..= end]` (brackets at `start` and
/// `end`): its body is simple exactly when it does no I/O, returns the
/// pointer to where it began, and decrements the current cell by exactly 1
/// at exactly one place.
pub fn is_simple(ir: &IR, start: usize, end: usize) -> (r: bool)
    requires
        start < end,
        end <= ir@.len(),
        sum_counts(ir@) <= usize::MAX,
    ensures
        r == is_simple_spec(ir@.subrange(start + 1, end as int)),
{
    let ghost body = ir@.subrange(start + 1, end as int);
    let mut dp: i128 = 0;
    let mut seen = false;
    let mut i = start + 1;
    proof {
        lemma_sum_counts_sub_le(ir@, start + 1, end as int);
        assert(body.skip(0) =~= body);
    }
    while i < end
        invariant
            start + 1 <= i <= end <= ir@.len(),
            body == ir@.subrange(start + 1, end as int),
            sum_counts(body) <= usize::MAX,
            dp == body_displacement(body) - body_displacement(body.skip(i - (start + 1))),
            no_io(body) == no_io(body.skip(i - (start + 1))),
            lone_unit_counter(body, 0, false) == lone_unit_counter(
                body.skip(i - (start + 1)),
                dp as int,
                seen,
            ),
        decreases end - i,
    {
        let ghost k = i - (start + 1);
        let ghost rest = body.skip(k);
        proof {
            assert(rest[0] == body[k]);
            assert(body[k] == ir@[i as int]);
            assert(rest.skip(1) =~= body.skip(k + 1));
            lemma_body_displacement_bound(body);
            lemma_body_displacement_bound(rest);
            lemma_body_displacement_bound(body.skip(k + 1));
            lemma_sum_counts_sub_le(body, k, body.len() as int);
            assert(body.subrange(k, body.len() as int) =~= rest);
            lemma_sum_counts_sub_le(body, k + 1, body.len() as int);
            assert(body.subrange(k + 1, body.len() as int) =~= body.skip(k + 1));
        }
        match ir[i] {
            Inst::Right(ct) => {
                dp = dp + (ct as i128);
            },
            Inst::Left(ct) => {
                dp = dp - (ct as i128);
            },
            Inst::Add(ct) | Inst::Sub(ct) => {
                if dp == 0 {
                    if ct != 1 || seen {
                        return false;
                    }
                    seen = true;
                }
            },
            Inst::In | Inst::Out => {
                return false;
            },
            _ => (),
        }
        i = i + 1;
    }
    proof {
        assert(body.skip(body.len() as int) =~= Seq::<Inst>::empty());
        lemma_body_displacement_bound(body);
    }
    dp == 0
}

/// The matching `]` for a `[` at index 0, provided the loop is innermost:
/// the first loop marker at or after index `i` must be a `]`.
pub open spec fn inner_end_from(s: Seq<Inst>, i: int) -> Option<int>
    decreases s.len() - i,
{
    if i < 1 || i >= s.len() {
        None
    } else if s[i] == Inst::LoopEnd {
        Some(i)
    } else if s[i] == Inst::LoopStart {
        None
    } else {
        inner_end_from(s, i + 1)
    }
}

pub open spec fn inner_end(s: Seq<Inst>) -> Option<int> {
    inner_end_from(s, 1)
}

pub proof fn lemma_inner_end_props(s: Seq<Inst>, i: int)
    requires
        1 <= i,
    ensures
        match inner_end_from(s, i) {
            Some(j) => i <= j < s.len() && s[j] == Inst::LoopEnd,
            None => true,
        },
    decreases s.len() - i,
{
    if 1 <= i < s.len() && s[i] != Inst::LoopEnd && s[i] != Inst::LoopStart {
        lemma_inner_end_props(s, i + 1);
    }
}

/// Pins `inner_end` down from a scan: `m` is the first position at or past 1
/// holding a loop marker (or the length, if none does).
pub proof fn lemma_inner_end_scan(s: Seq<Inst>, i: int, m: int)
    requires
        1 <= i <= m <= s.len(),
        forall|k: int| i <= k < m ==> #[trigger] s[k] != Inst::LoopStart && s[k] != Inst::LoopEnd,
        m == s.len() || s[m] == Inst::LoopStart || s[m] == Inst::LoopEnd,
    ensures
        inner_end_from(s, i) == if m < s.len() && s[m] == Inst::LoopEnd {
            Some(m)
        } else {
            None::<int>
        },
    decreases m - i,
{
    if i < m {
        lemma_inner_end_scan(s, i + 1, m);
    }
}

/// The instruction kinds a reducible loop body may hold.
pub open spec fn reducible_inst(i: Inst) -> bool {
    i is Add || i is Sub || i is Right || i is Left || i is Zero
}

/// Whether every instruction of a simple body has a branch-free rewrite.
pub open spec fn reducible(s: Seq<Inst>) -> bool {
    forall|k: int| 0 <= k < s.len() ==> reducible_inst(#[trigger] s[k])
}

/// The branch-free rewrite of a simple loop body, walked with running
/// displacement `dp`: arithmetic at a nonzero displacement becomes a
/// fixed-offset multiply-accumulate, the counter decrement at displacement 0
/// and all pointer moves are dropped, and zero-stores are re-anchored.
pub open spec fn reduce_body(s: Seq<Inst>, dp: int) -> Seq<Inst>
    decreases s.len(),
{
    if s.len() == 0 {
        Seq::empty()
    } else {
        match s[0] {
            Inst::Right(ct) => reduce_body(s.skip(1), dp + ct),
            Inst::Left(ct) => reduce_body(s.skip(1), dp - ct),
            Inst::Add(ct) => {
                if dp != 0 {
                    seq![Inst::AddFrom(ct, dp as i32)] + reduce_body(s.skip(1), dp)
                } else {
                    reduce_body(s.skip(1), dp)
                }
            },
            Inst::Sub(ct) => {
                if dp != 0 {
                    seq![Inst::SubFrom(ct, dp as i32)] + reduce_body(s.skip(1), dp)
                } else {
                    reduce_body(s.skip(1), dp)
                }
            },
            Inst::Zero(_) => seq![Inst::Zero(dp as i32)] + reduce_body(s.skip(1), dp),
            _ => reduce_body(s.skip(1), dp),
        }
    }
}

/// The full replacement for a simple bracketed loop: a guarded region that
/// applies the reduced body once and then zeroes the counter cell.
pub open spec fn reduced_loop(body: Seq<Inst>) -> Seq<Inst> {
    seq![Inst::SimpleLoopStart(0)] + reduce_body(body, 0) + seq![Inst::Zero(0), Inst::SimpleLoopEnd]
}

/// What strength reduction yields: each innermost loop whose body is simple
/// and reducible becomes its branch-free form; everything else passes
/// through, left to right.
pub open spec fn opt_loops_spec(s: Seq<Inst>) -> Seq<Inst>
    decreases s.len(),
    via opt_loops_spec_decreases
{
    if s.len() == 0 {
        Seq::empty()
    } else if s[0] == Inst::LoopStart {
        match inner_end(s) {
            Some(j) => {
                if is_simple_spec(s.subrange(1, j)) && reducible(s.subrange(1, j)) {
                    reduced_loop(s.subrange(1, j)) + opt_loops_spec(s.skip(j + 1))
                } else {
                    seq![s[0]] + opt_loops_spec(s.skip(1))
                }
            },
            None => seq![s[0]] + opt_loops_spec(s.skip(1)),
        }
    } else {
        seq![s[0]] + opt_loops_spec(s.skip(1))
    }
}

#[via_fn]
proof fn opt_loops_spec_decreases(s: Seq<Inst>) {
    if s.len() > 0 {
        lemma_inner_end_props(s, 1);
    }
}

proof fn lemma_body_displacement_split(s: Seq<Inst>, i: int)
    requires
        0 <= i <= s.len(),
    ensures
        body_displacement(s) == body_displacement(s.take(i)) + body_displacement(s.skip(i)),
    decreases i,
{
    if i == 0 {
        assert(s.take(0) =~= Seq::<Inst>::empty());
        assert(s.skip(0) =~= s);
    } else {
        lemma_body_displacement_split(s.skip(1), i - 1);
        assert(s.skip(1).skip(i - 1) =~= s.skip(i));
        assert(s.take(i)[0] == s[0]);
        assert(s.take(i).skip(1) =~= s.skip(1).take(i - 1));
    }
}

fn reducible_check(ir: &IR, lo: usize, hi: usize) -> (r: bool)
    requires
        lo <= hi <= ir@.len(),
    ensures
        r == reducible(ir@.subrange(lo as int, hi as int)),
{
    let ghost body = ir@.subrange(lo as int, hi as int);
    let mut i = lo;
    while i < hi
        invariant
            lo <= i <= hi <= ir@.len(),
            body == ir@.subrange(lo as int, hi as int),
            forall|k: int| 0 <= k < i - lo ==> reducible_inst(#[trigger] body[k]),
        decreases hi - i,
    {
        match ir[i] {
            Inst::Add(_) | Inst::Sub(_) | Inst::Right(_) | Inst::Left(_) | Inst::Zero(_) => (),
            _ => {
                proof {
                    assert(body[i - lo] == ir@[i as int]);
                    assert(!reducible_inst(body[i - lo]));
                }
                return false;
            },
        }
        proof {
            assert(body[i - lo] == ir@[i as int]);
        }
        i = i + 1;
    }
    true
}

/// Rewrites every innermost simple loop into its strength-reduced form:
/// `SimpleLoopStart(0)`, per-offset multiply-accumulate instructions, a
/// zero-store to the counter cell, `SimpleLoopEnd`. Other loops, and
/// everything outside loops, pass through unchanged.
pub fn opt_simple_loops(ir: &IR) -> (res: IR)
    requires
        sum_counts(ir@) <= 0x7fff_ffff,
    ensures
        res@ == opt_loops_spec(ir@),
{
    let mut res: IR = Vec::new();
    let n = ir.len();
    let mut idx: usize = 0;
    proof {
        assert(ir@.skip(0) =~= ir@);
        assert(Seq::<Inst>::empty() + opt_loops_spec(ir@) =~= opt_loops_spec(ir@));
    }
    while idx < n
        invariant
            n == ir@.len(),
            idx <= n,
            sum_counts(ir@) <= 0x7fff_ffff,
            opt_loops_spec(ir@) == res@ + opt_loops_spec(ir@.skip(idx as int)),
        decreases n - idx,
    {
        let ghost s = ir@.skip(idx as int);
        proof {
            assert(s[0] == ir@[idx as int]);
        }
        let mut rewrote = false;
        if ir[idx] == Inst::LoopStart {
            // find the first loop marker past the `[`
            let mut j = idx + 1;
            while j < n && !(ir[j] == Inst::LoopStart || ir[j] == Inst::LoopEnd)
                invariant
                    idx + 1 <= j <= n,
                    n == ir@.len(),
                    forall|k: int|
                        idx + 1 <= k < j ==> #[trigger] ir@[k] != Inst::LoopStart && ir@[k]
                            != Inst::LoopEnd,
                decreases n - j,
            {
                j = j + 1;
            }
            proof {
                assert forall|k: int| 1 <= k < j - idx implies #[trigger] s[k] != Inst::LoopStart
                    && s[k] != Inst::LoopEnd by {
                    assert(s[k] == ir@[idx + k]);
                }
                if j < n {
                    assert(s[j - idx] == ir@[j as int]);
                }
                lemma_inner_end_scan(s, 1, j - idx as int);
            }
            if j < n && ir[j] == Inst::LoopEnd {
                proof {
                    assert(inner_end(s) == Some(j - idx as int));
                }
                let simple = is_simple(ir, idx, j);
                let red = reducible_check(ir, idx + 1, j);
                let ghost body = ir@.subrange(idx + 1, j as int);
                proof {
                    assert(s.subrange(1, j - idx as int) =~= body);
                }
                if simple && red {
                    res.push(Inst::SimpleLoopStart(0));
                    let ghost pre = res@;
                    let mut dp: i128 = 0;
                    let mut b = idx + 1;
                    proof {
                        assert(body.skip(0) =~= body);
                        assert(pre + reduce_body(body, 0) =~= pre + reduce_body(
                            body.skip(0),
                            0,
                        ));
                    }
                    while b < j
                        invariant
                            idx + 1 <= b <= j <= n,
                            n == ir@.len(),
                            sum_counts(ir@) <= 0x7fff_ffff,
                            body == ir@.subrange(idx + 1, j as int),
                            reducible(body),
                            dp == body_displacement(body.take(b - (idx + 1))),
                            pre + reduce_body(body, 0) == res@ + reduce_body(
                                body.skip(b - (idx + 1)),
                                dp as int,
                            ),
                        decreases j - b,
                    {
                        let ghost t = b - (idx + 1);
                        let ghost rest = body.skip(t);
                        proof {
                            assert(rest[0] == body[t]);
                            assert(body[t] == ir@[b as int]);
                            assert(rest.skip(1) =~= body.skip(t + 1));
                            assert(body.take(t + 1) =~= body.take(t).push(body[t]));
                            lemma_body_displacement_split(body, t + 1);
                            lemma_body_displacement_split(body, t);
                            lemma_body_displacement_bound(body.take(t + 1));
                            lemma_body_displacement_bound(body.take(t));
                            lemma_sum_counts_sub_le(body, 0, t + 1);
                            assert(body.subrange(0, t + 1) =~= body.take(t + 1));
                            lemma_sum_counts_sub_le(body, 0, t);
                            assert(body.subrange(0, t) =~= body.take(t));
                            lemma_sum_counts_sub_le(ir@, idx + 1, j as int);
                        }
                        match ir[b] {
                            Inst::Right(ct) => {
                                proof {
                                    assert(body_displacement(body.take(t + 1))
                                        == body_displacement(body.take(t)) + ct);
                                }
                                dp = dp + (ct as i128);
                            },
                            Inst::Left(ct) => {
                                proof {
                                    assert(body_displacement(body.take(t + 1))
                                        == body_displacement(body.take(t)) - ct);
                                }
                                dp = dp - (ct as i128);
                            },
                            Inst::Add(ct) => {
                                if dp != 0 {
                                    res.push(Inst::AddFrom(ct, dp as i32));
                                }
                                proof {
                                    assert(body_displacement(body.take(t + 1))
                                        == body_displacement(body.take(t)));
                                }
                            },
                            Inst::Sub(ct) => {
                                if dp != 0 {
                                    res.push(Inst::SubFrom(ct, dp as i32));
                                }
                                proof {
                                    assert(body_displacement(body.take(t + 1))
                                        == body_displacement(body.take(t)));
                                }
                            },
                            Inst::Zero(_) => {
                                res.push(Inst::Zero(dp as i32));
                                proof {
                                    assert(body_displacement(body.take(t + 1))
                                        == body_displacement(body.take(t)));
                                }
                            },
                            _ => {
                                proof {
                                    assert(reducible_inst(body[t]));
                                    assert(false);
                                }
                            },
                        }
                        b = b + 1;
                    }
                    proof {
                        assert(body.skip(body.len() as int) =~= Seq::<Inst>::empty());
                        assert(res@ =~= pre + reduce_body(body, 0));
                    }
                    res.push(Inst::Zero(0));
                    res.push(Inst::SimpleLoopEnd);
                    proof {
                        assert(res@ =~= pre.drop_last() + reduced_loop(body));
                        assert(s.skip(j - idx + 1) =~= ir@.skip(j + 1));
                        assert(opt_loops_spec(s) == reduced_loop(body) + opt_loops_spec(
                            ir@.skip(j + 1),
                        ));
                        assert(opt_loops_spec(ir@) =~= res@ + opt_loops_spec(ir@.skip(j + 1)));
                    }
                    idx = j + 1;
                    rewrote = true;
                }
            }
        }
        if !rewrote {
            res.push(ir[idx]);
            proof {
                assert(s.skip(1) =~= ir@.skip(idx + 1));
                assert(opt_loops_spec(s) == seq![s[0]] + opt_loops_spec(ir@.skip(idx + 1)));
                assert(opt_loops_spec(ir@) =~= res@ + opt_loops_spec(ir@.skip(idx + 1)));
            }
            idx = idx + 1;
        }
    }
    proof {
        assert(ir@.skip(n as int) =~= Seq::<Inst>::empty());
        assert(opt_loops_spec(ir@) =~= res@);
    }
    res
}

proof fn lemma_run_depth_singleton_flat(x: Inst, d: int)
    requires
        d >= 0,
        loop_delta(x) == 0,
    ensures
        run_depth(seq![x], d) == Some(d),
{
    assert(seq![x][0] == x);
    assert(seq![x].skip(1) =~= Seq::<Inst>::empty());
    assert(run_depth(Seq::<Inst>::empty(), d) == Some(d));
}

/// A three-instruction window `[` x `]` with an unmarked middle leaves the
/// running depth where it started.
proof fn lemma_run_depth_window(s: Seq<Inst>, d: int)
    requires
        d >= 0,
        s.len() >= 3,
        s[0] == Inst::LoopStart,
        loop_delta(s[1]) == 0,
        s[2] == Inst::LoopEnd,
    ensures
        run_depth(s, d) == run_depth(s.skip(3), d),
{
    let t1 = s.skip(1);
    let t2 = s.skip(2);
    assert(t1[0] == s[1] && t2[0] == s[2]);
    assert(t1.skip(1) =~= t2);
    assert(t2.skip(1) =~= s.skip(3));
    assert(run_depth(s, d) == run_depth(t1, d + 1));
    assert(run_depth(t1, d + 1) == run_depth(t2, d + 1));
    assert(run_depth(t2, d + 1) == run_depth(s.skip(3), d));
}

/// The cell-zero rewrite preserves bracket balance: each rewritten window
/// was a whole loop, and the zero-store that replaces it opens none.
pub proof fn lemma_cell_zero_preserves_depth(s: Seq<Inst>, d: int)
    ensures
        run_depth(cell_zero_spec(s), d) == run_depth(s, d),
    decreases s.len(),
{
    if d < 0 {
        assert(run_depth(cell_zero_spec(s), d) is None);
        assert(run_depth(s, d) is None);
    } else if s.len() > 0 {
        if cz_match(s) {
            assert(loop_delta(s[1]) == 0);
            lemma_run_depth_window(s, d);
            lemma_cell_zero_preserves_depth(s.skip(3), d);
            lemma_run_depth_concat(seq![Inst::Zero(0)], cell_zero_spec(s.skip(3)), d);
            lemma_run_depth_singleton_flat(Inst::Zero(0), d);
        } else {
            let d2 = d + loop_delta(s[0]);
            lemma_cell_zero_preserves_depth(s.skip(1), d2);
            lemma_run_depth_concat(seq![s[0]], cell_zero_spec(s.skip(1)), d);
            lemma_run_depth_singleton(s[0], d);
            assert(run_depth(s, d) == run_depth(s.skip(1), d2));
            if d2 < 0 {
                assert(run_depth(s.skip(1), d2) is None);
                assert(run_depth(cell_zero_spec(s.skip(1)), d2) is None);
            }
        }
    }
}

/// Scan recognition preserves bracket balance, for the same reason.
pub proof fn lemma_scan_opt_preserves_depth(s: Seq<Inst>, d: int)
    ensures
        run_depth(scan_opt_spec(s), d) == run_depth(s, d),
    decreases s.len(),
{
    if d < 0 {
        assert(run_depth(scan_opt_spec(s), d) is None);
        assert(run_depth(s, d) is None);
    } else if s.len() > 0 {
        if scan_match(s) {
            assert(loop_delta(s[1]) == 0);
            lemma_run_depth_window(s, d);
            lemma_scan_opt_preserves_depth(s.skip(3), d);
            lemma_run_depth_concat(seq![Inst::Scan(stride_of(s[1]))], scan_opt_spec(s.skip(3)), d);
            lemma_run_depth_singleton_flat(Inst::Scan(stride_of(s[1])), d);
        } else {
            let d2 = d + loop_delta(s[0]);
            lemma_scan_opt_preserves_depth(s.skip(1), d2);
            lemma_run_depth_concat(seq![s[0]], scan_opt_spec(s.skip(1)), d);
            lemma_run_depth_singleton(s[0], d);
            assert(run_depth(s, d) == run_depth(s.skip(1), d2));
            if d2 < 0 {
                assert(run_depth(s.skip(1), d2) is None);
                assert(run_depth(scan_opt_spec(s.skip(1)), d2) is None);
            }
        }
    }
}

proof fn lemma_inner_end_markers(s: Seq<Inst>, i: int)
    requires
        1 <= i,
    ensures
        match inner_end_from(s, i) {
            Some(j) => forall|k: int|
                i <= k < j ==> #[trigger] s[k] != Inst::LoopStart && s[k] != Inst::LoopEnd,
            None => true,
        },
    decreases s.len() - i,
{
    if 1 <= i < s.len() && s[i] != Inst::LoopEnd && s[i] != Inst::LoopStart {
        lemma_inner_end_markers(s, i + 1);
    }
}

proof fn lemma_reduce_body_flat(s: Seq<Inst>, dp: int)
    ensures
        forall|k: int|
            0 <= k < reduce_body(s, dp).len() ==> loop_delta(#[trigger] reduce_body(s, dp)[k])
                == 0,
    decreases s.len(),
{
    if s.len() > 0 {
        let tail_dp = match s[0] {
            Inst::Right(ct) => dp + ct,
            Inst::Left(ct) => dp - ct,
            _ => dp,
        };
        lemma_reduce_body_flat(s.skip(1), tail_dp);
        let out = reduce_body(s, dp);
        let tail = reduce_body(s.skip(1), tail_dp);
        assert forall|k: int| 0 <= k < out.len() implies loop_delta(#[trigger] out[k]) == 0 by {
            match s[0] {
                Inst::Add(ct) => {
                    if dp != 0 {
                        if k == 0 {
                            assert(out[0] == Inst::AddFrom(ct, dp as i32));
                        } else {
                            assert(out[k] == tail[k - 1]);
                        }
                    }
                },
                Inst::Sub(ct) => {
                    if dp != 0 {
                        if k == 0 {
                            assert(out[0] == Inst::SubFrom(ct, dp as i32));
                        } else {
                            assert(out[k] == tail[k - 1]);
                        }
                    }
                },
                Inst::Zero(_) => {
                    if k == 0 {
                        assert(out[0] == Inst::Zero(dp as i32));
                    } else {
                        assert(out[k] == tail[k - 1]);
                    }
                },
                _ => {},
            }
        }
    }
}

/// Strength reduction preserves bracket balance: each rewritten span was a
/// whole innermost loop, and its branch-free replacement holds no loop
/// marker at all.
pub proof fn lemma_opt_loops_preserves_depth(s: Seq<Inst>, d: int)
    ensures
        run_depth(opt_loops_spec(s), d) == run_depth(s, d),
    decreases s.len(),
{
    if d < 0 {
        assert(run_depth(opt_loops_spec(s), d) is None);
        assert(run_depth(s, d) is None);
    } else if s.len() > 0 {
        let rewrite = s[0] == Inst::LoopStart && match inner_end(s) {
            Some(j) => is_simple_spec(s.subrange(1, j)) && reducible(s.subrange(1, j)),
            None => false,
        };
        if rewrite {
            let j = inner_end(s)->Some_0;
            lemma_inner_end_props(s, 1);
            lemma_inner_end_markers(s, 1);
            let body = s.subrange(1, j);
            // the original span walks the depth up at `[`, flat across the
            // body, and back down at `]`
            assert(s =~= s.take(j + 1) + s.skip(j + 1));
            lemma_run_depth_concat(s.take(j + 1), s.skip(j + 1), d);
            assert(s.take(j + 1) =~= seq![s[0]] + (body + seq![s[j]]));
            lemma_run_depth_concat(seq![s[0]], body + seq![s[j]], d);
            lemma_run_depth_singleton(s[0], d);
            assert(loop_delta(s[0]) == 1);
            assert(run_depth(seq![s[0]], d) == Some(d + 1));
            lemma_run_depth_concat(body, seq![s[j]], d + 1);
            assert forall|k: int| 0 <= k < body.len() implies loop_delta(#[trigger] body[k])
                == 0 by {
                assert(body[k] == s[1 + k]);
                assert(s[1 + k] != Inst::LoopStart && s[1 + k] != Inst::LoopEnd);
            }
            lemma_run_depth_flat(body, d + 1);
            lemma_run_depth_singleton(s[j], d + 1);
            assert(loop_delta(s[j]) == -1);
            assert(run_depth(seq![s[j]], d + 1) == Some(d));
            assert(run_depth(s, d) == run_depth(s.skip(j + 1), d));
            // the replacement is flat and the rest is rewritten recursively
            lemma_opt_loops_preserves_depth(s.skip(j + 1), d);
            lemma_run_depth_concat(reduced_loop(body), opt_loops_spec(s.skip(j + 1)), d);
            lemma_reduce_body_flat(body, 0);
            let red = reduced_loop(body);
            assert forall|k: int| 0 <= k < red.len() implies loop_delta(#[trigger] red[k])
                == 0 by {
                let mid = reduce_body(body, 0);
                if k == 0 {
                    assert(red[0] == Inst::SimpleLoopStart(0));
                } else if k < 1 + mid.len() {
                    assert(red[k] == mid[k - 1]);
                } else if k == 1 + mid.len() {
                    assert(red[k] == Inst::Zero(0));
                } else {
                    assert(red[k] == Inst::SimpleLoopEnd);
                }
            }
            lemma_run_depth_flat(red, d);
        } else {
            let d2 = d + loop_delta(s[0]);
            lemma_opt_loops_preserves_depth(s.skip(1), d2);
            lemma_run_depth_concat(seq![s[0]], opt_loops_spec(s.skip(1)), d);
            lemma_run_depth_singleton(s[0], d);
            assert(run_depth(s, d) == run_depth(s.skip(1), d2));
            if d2 < 0 {
                assert(run_depth(s.skip(1), d2) is None);
                assert(run_depth(opt_loops_spec(s.skip(1)), d2) is None);
            }
        }
    }
}

} // verus!
