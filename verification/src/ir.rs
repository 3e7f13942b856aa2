//! The intermediate representation: one tagged instruction per significant
//! source character, later thickened by the optimizer passes.

use vstd::prelude::*;

verus! {

/// One IR instruction. `count` fields are non-negative repetition counts;
/// `offset`/`stride` fields are signed cell displacements.
#[derive(PartialEq, Eq, Structural, Clone, Copy, Debug, PartialOrd, Ord)]
pub enum Inst {
    Add(usize),
    Sub(usize),
    AddFrom(usize, i32),
    SubFrom(usize, i32),
    Left(usize),
    Right(usize),
    In,
    Out,
    LoopStart,
    LoopEnd,
    SimpleLoopStart(i32),
    SimpleLoopEnd,
    Zero(i32),
    Scan(i32),
}

pub type IR = Vec<Inst>;

/// Whether a character is one of the eight significant source characters.
pub open spec fn is_significant(c: char) -> bool {
    c == '+' || c == '-' || c == '>' || c == '<' || c == '[' || c == ']' || c == '.' || c == ','
}

/// The instruction a significant character parses to (count 1, offset 0).
pub open spec fn inst_of_char(c: char) -> Inst {
    if c == '+' {
        Inst::Add(1)
    } else if c == '-' {
        Inst::Sub(1)
    } else if c == '>' {
        Inst::Right(1)
    } else if c == '<' {
        Inst::Left(1)
    } else if c == '[' {
        Inst::LoopStart
    } else if c == ']' {
        Inst::LoopEnd
    } else if c == '.' {
        Inst::Out
    } else {
        Inst::In
    }
}

/// What parsing yields: the significant characters, in source order, each
/// mapped to its default-valued instruction. Insignificant characters leave
/// no trace.
pub open spec fn parse_spec(s: Seq<char>) -> Seq<Inst> {
    s.filter(|c: char| is_significant(c)).map_values(|c: char| inst_of_char(c))
}

proof fn lemma_parse_spec_push(s: Seq<char>, c: char)
    ensures
        parse_spec(s.push(c)) == if is_significant(c) {
            parse_spec(s).push(inst_of_char(c))
        } else {
            parse_spec(s)
        },
{
    reveal(Seq::filter);
    assert(s.push(c).drop_last() == s);
    if is_significant(c) {
        assert(parse_spec(s.push(c)) =~= parse_spec(s).push(inst_of_char(c)));
    } else {
        assert(parse_spec(s.push(c)) =~= parse_spec(s));
    }
}

/// Parsing is total: any text is accepted, each significant character becomes
/// one instruction, everything else is skipped, and source order is kept.
pub fn parse(program: &String) -> (ir: IR)
    ensures
        ir@ == parse_spec(program@),
{
    let mut ir: IR = Vec::new();
    let n = program.unicode_len();
    let mut i: usize = 0;
    while i < n
        invariant
            n == program@.len(),
            i <= n,
            ir@ == parse_spec(program@.take(i as int)),
        decreases n - i,
    {
        let c = program.get_char(i);
        match c {
            '+' => ir.push(Inst::Add(1)),
            '-' => ir.push(Inst::Sub(1)),
            '>' => ir.push(Inst::Right(1)),
            '<' => ir.push(Inst::Left(1)),
            '[' => ir.push(Inst::LoopStart),
            ']' => ir.push(Inst::LoopEnd),
            '.' => ir.push(Inst::Out),
            ',' => ir.push(Inst::In),
            _ => (),
        }
        proof {
            lemma_parse_spec_push(program@.take(i as int), c);
            assert(program@.take(i + 1 as int) == program@.take(i as int).push(c));
        }
        i = i + 1;
    }
    proof {
        assert(program@.take(n as int) == program@);
    }
    ir
}

/// What an instruction does to the loop-nesting depth.
pub open spec fn loop_delta(i: Inst) -> int {
    if i == Inst::LoopStart {
        1
    } else if i == Inst::LoopEnd {
        -1
    } else {
        0
    }
}

/// Walks the program with a running loop-nesting depth, starting from `d`:
/// the final depth, or nothing if some `]` closes a loop that is not open.
pub open spec fn run_depth(s: Seq<Inst>, d: int) -> Option<int>
    decreases s.len(),
{
    if d < 0 {
        None
    } else if s.len() == 0 {
        Some(d)
    } else {
        run_depth(s.skip(1), d + loop_delta(s[0]))
    }
}

/// Loop brackets are balanced: every `[` has its `]`, in order, and none is
/// left open at the end.
pub open spec fn balanced(s: Seq<Inst>) -> bool {
    run_depth(s, 0) == Some(0int)
}

/// Walking a concatenation is walking the first part and going on from the
/// depth it reaches.
pub proof fn lemma_run_depth_concat(a: Seq<Inst>, b: Seq<Inst>, d: int)
    ensures
        run_depth(a + b, d) == match run_depth(a, d) {
            Some(d1) => run_depth(b, d1),
            None => None::<int>,
        },
    decreases a.len(),
{
    if d < 0 {
    } else if a.len() == 0 {
        assert(a + b =~= b);
    } else {
        assert((a + b)[0] == a[0]);
        assert((a + b).skip(1) =~= a.skip(1) + b);
        lemma_run_depth_concat(a.skip(1), b, d + loop_delta(a[0]));
    }
}

/// A stretch with no loop marker leaves the depth alone.
pub proof fn lemma_run_depth_flat(s: Seq<Inst>, d: int)
    requires
        d >= 0,
        forall|k: int| 0 <= k < s.len() ==> loop_delta(#[trigger] s[k]) == 0,
    ensures
        run_depth(s, d) == Some(d),
    decreases s.len(),
{
    if s.len() > 0 {
        assert(loop_delta(s[0]) == 0);
        assert forall|k: int| 0 <= k < s.skip(1).len() implies loop_delta(
            #[trigger] s.skip(1)[k],
        ) == 0 by {
            assert(s.skip(1)[k] == s[k + 1]);
        }
        lemma_run_depth_flat(s.skip(1), d);
    }
}

pub proof fn lemma_run_depth_singleton(x: Inst, d: int)
    requires
        d >= 0,
    ensures
        run_depth(seq![x], d) == if d + loop_delta(x) >= 0 {
            Some(d + loop_delta(x))
        } else {
            None::<int>
        },
{
    assert(seq![x][0] == x);
    assert(seq![x].skip(1) =~= Seq::<Inst>::empty());
    let d2 = d + loop_delta(x);
    if d2 >= 0 {
        assert(run_depth(Seq::<Inst>::empty(), d2) == Some(d2));
    } else {
        assert(run_depth(Seq::<Inst>::empty(), d2) is None);
    }
}

/// Run-length combining preserves bracket balance: loop markers pass through
/// it untouched, in order.
pub proof fn lemma_combine_preserves_depth(s: Seq<Inst>, d: int)
    ensures
        run_depth(combine_spec(s), d) == run_depth(s, d),
    decreases s.len(),
{
    if d < 0 {
        assert(run_depth(combine_spec(s), d) is None);
        assert(run_depth(s, d) is None);
    } else if s.len() > 0 {
        lemma_run_props(s);
        let n = run_length(s);
        let head = if mergeable(s[0]) {
            with_count(s[0], run_sum(s))
        } else {
            s[0]
        };
        lemma_run_depth_singleton(head, d);
        if mergeable(s[0]) {
            lemma_combine_preserves_depth(s.skip(n), d);
            lemma_run_depth_concat(seq![head], combine_spec(s.skip(n)), d);
            assert(loop_delta(head) == 0);
            assert forall|k: int| 0 <= k < s.take(n).len() implies loop_delta(
                #[trigger] s.take(n)[k],
            ) == 0 by {
                assert(s.take(n)[k] == s[k]);
                assert(same_kind(s[k], s[0]));
            }
            lemma_run_depth_flat(s.take(n), d);
            assert(s =~= s.take(n) + s.skip(n));
            lemma_run_depth_concat(s.take(n), s.skip(n), d);
        } else {
            assert(n == 1);
            let d2 = d + loop_delta(s[0]);
            lemma_combine_preserves_depth(s.skip(1), d2);
            lemma_run_depth_concat(seq![head], combine_spec(s.skip(1)), d);
            assert(run_depth(s, d) == run_depth(s.skip(1), d2));
            if d2 < 0 {
                assert(run_depth(s.skip(1), d2) is None);
                assert(run_depth(combine_spec(s.skip(1)), d2) is None);
            }
        }
    }
}

/// The four run-length-foldable instruction kinds.
pub open spec fn mergeable(i: Inst) -> bool {
    match i {
        Inst::Add(_) | Inst::Sub(_) | Inst::Right(_) | Inst::Left(_) => true,
        _ => false,
    }
}

/// Whether two instructions are of the same foldable kind (counts ignored).
pub open spec fn same_kind(a: Inst, b: Inst) -> bool {
    match (a, b) {
        (Inst::Add(_), Inst::Add(_)) => true,
        (Inst::Sub(_), Inst::Sub(_)) => true,
        (Inst::Right(_), Inst::Right(_)) => true,
        (Inst::Left(_), Inst::Left(_)) => true,
        _ => false,
    }
}

/// The repetition count an instruction carries (zero for uncounted kinds).
pub open spec fn count_of(i: Inst) -> int {
    match i {
        Inst::Add(ct) => ct as int,
        Inst::Sub(ct) => ct as int,
        Inst::Right(ct) => ct as int,
        Inst::Left(ct) => ct as int,
        _ => 0,
    }
}

/// The same instruction with its count replaced (uncounted kinds unchanged).
pub open spec fn with_count(i: Inst, n: int) -> Inst {
    match i {
        Inst::Add(_) => Inst::Add(n as usize),
        Inst::Sub(_) => Inst::Sub(n as usize),
        Inst::Right(_) => Inst::Right(n as usize),
        Inst::Left(_) => Inst::Left(n as usize),
        _ => i,
    }
}

/// Total of all repetition counts in a program. Bounds on this total are what
/// machine-sized counters in the passes live on.
pub open spec fn sum_counts(s: Seq<Inst>) -> int
    decreases s.len(),
{
    if s.len() == 0 {
        0
    } else {
        count_of(s[0]) + sum_counts(s.skip(1))
    }
}

/// Length of the maximal leading run of instructions of one foldable kind
/// (1 for a leading unfoldable instruction).
pub open spec fn run_length(s: Seq<Inst>) -> int
    decreases s.len(),
{
    if s.len() == 0 {
        0
    } else if !mergeable(s[0]) {
        1
    } else if s.len() >= 2 && same_kind(s[0], s[1]) {
        1 + run_length(s.skip(1))
    } else {
        1
    }
}

/// Summed count of the maximal leading run.
pub open spec fn run_sum(s: Seq<Inst>) -> int
    decreases s.len(),
{
    if s.len() == 0 || !mergeable(s[0]) {
        0
    } else if s.len() >= 2 && same_kind(s[0], s[1]) {
        count_of(s[0]) + run_sum(s.skip(1))
    } else {
        count_of(s[0])
    }
}

/// What run-length combining yields: each maximal run of one foldable kind
/// becomes a single instruction carrying the summed count; everything else
/// passes through unchanged.
pub open spec fn combine_spec(s: Seq<Inst>) -> Seq<Inst>
    decreases s.len(),
    via combine_spec_decreases
{
    if s.len() == 0 {
        Seq::empty()
    } else {
        let n = run_length(s);
        let head = if mergeable(s[0]) {
            with_count(s[0], run_sum(s))
        } else {
            s[0]
        };
        seq![head] + combine_spec(s.skip(n))
    }
}

#[via_fn]
proof fn combine_spec_decreases(s: Seq<Inst>) {
    if s.len() > 0 {
        lemma_run_length_bounds(s);
    }
}

proof fn lemma_run_length_bounds(s: Seq<Inst>)
    requires
        s.len() > 0,
    ensures
        1 <= run_length(s) <= s.len(),
    decreases s.len(),
{
    if mergeable(s[0]) && s.len() >= 2 && same_kind(s[0], s[1]) {
        lemma_run_length_bounds(s.skip(1));
    }
}

pub proof fn lemma_sum_counts_nonneg(s: Seq<Inst>)
    ensures
        sum_counts(s) >= 0,
    decreases s.len(),
{
    if s.len() > 0 {
        lemma_sum_counts_nonneg(s.skip(1));
    }
}

proof fn lemma_sum_counts_singleton(x: Inst)
    ensures
        sum_counts(seq![x]) == count_of(x),
{
    assert(seq![x][0] == x);
    assert(seq![x].skip(1) =~= Seq::<Inst>::empty());
    assert(sum_counts(Seq::<Inst>::empty()) == 0);
}

/// A program whose counts are all at most 1 has total count at most its
/// length.
pub proof fn lemma_sum_counts_le_len(s: Seq<Inst>)
    requires
        forall|k: int| 0 <= k < s.len() ==> count_of(#[trigger] s[k]) <= 1,
    ensures
        0 <= sum_counts(s) <= s.len(),
    decreases s.len(),
{
    if s.len() > 0 {
        assert forall|k: int| 0 <= k < s.skip(1).len() implies count_of(
            #[trigger] s.skip(1)[k],
        ) <= 1 by {
            assert(s.skip(1)[k] == s[k + 1]);
        }
        lemma_sum_counts_le_len(s.skip(1));
        assert(count_of(s[0]) >= 0);
    }
}

pub proof fn lemma_sum_counts_split(s: Seq<Inst>, i: int)
    requires
        0 <= i <= s.len(),
    ensures
        sum_counts(s) == sum_counts(s.take(i)) + sum_counts(s.skip(i)),
    decreases i,
{
    if i == 0 {
        assert(s.take(0) =~= Seq::<Inst>::empty());
        assert(sum_counts(Seq::<Inst>::empty()) == 0);
        assert(s.skip(0) =~= s);
    } else {
        lemma_sum_counts_split(s.skip(1), i - 1);
        assert(s.skip(1).skip(i - 1) =~= s.skip(i));
        assert(s.take(i)[0] == s[0]);
        assert(s.take(i).skip(1) =~= s.skip(1).take(i - 1));
        assert(sum_counts(s.take(i)) == count_of(s[0]) + sum_counts(s.skip(1).take(i - 1)));
    }
}

proof fn lemma_sum_counts_push(s: Seq<Inst>, x: Inst)
    ensures
        sum_counts(s.push(x)) == sum_counts(s) + count_of(x),
    decreases s.len(),
{
    if s.len() == 0 {
        assert(s.push(x) =~= seq![x]);
        lemma_sum_counts_singleton(x);
    } else {
        assert(s.push(x).skip(1) =~= s.skip(1).push(x));
        assert(s.push(x)[0] == s[0]);
        lemma_sum_counts_push(s.skip(1), x);
    }
}

proof fn lemma_same_kind_sym(a: Inst, b: Inst)
    ensures
        same_kind(a, b) == same_kind(b, a),
{
}

proof fn lemma_same_kind_trans(a: Inst, b: Inst, c: Inst)
    requires
        same_kind(a, b),
        same_kind(b, c),
    ensures
        same_kind(a, c),
{
}

/// The maximal run starting a sequence, pinned down from its extent: `m`
/// same-kind instructions followed by a kind break (or the end).
proof fn lemma_run_of_block(s: Seq<Inst>, m: int)
    requires
        s.len() > 0,
        mergeable(s[0]),
        1 <= m <= s.len(),
        forall|k: int| 0 <= k < m ==> same_kind(s[k], s[0]),
        m < s.len() ==> !same_kind(s[m], s[0]),
    ensures
        run_length(s) == m,
        run_sum(s) == sum_counts(s.take(m)),
    decreases m,
{
    if m == 1 {
        if s.len() >= 2 {
            lemma_same_kind_sym(s[0], s[1]);
            assert(!same_kind(s[0], s[1]));
        }
        assert(run_sum(s) == count_of(s[0]));
        assert(s.take(1) =~= seq![s[0]]);
        lemma_sum_counts_singleton(s[0]);
    } else {
        assert(same_kind(s[1], s[0]));
        lemma_same_kind_sym(s[0], s[1]);
        let t = s.skip(1);
        assert(t[0] == s[1]);
        assert forall|k: int| 0 <= k < m - 1 implies same_kind(t[k], t[0]) by {
            assert(t[k] == s[k + 1]);
            assert(same_kind(s[k + 1], s[0]));
            assert(same_kind(s[1], s[0]));
            lemma_same_kind_sym(s[1], s[0]);
            lemma_same_kind_trans(s[k + 1], s[0], s[1]);
        }
        assert(mergeable(t[0]));
        if m - 1 < t.len() {
            assert(t[m - 1] == s[m]);
            assert(!same_kind(s[m], s[0]));
            if same_kind(t[m - 1], t[0]) {
                lemma_same_kind_trans(s[m], s[1], s[0]);
                assert(false);
            }
        }
        lemma_run_of_block(t, m - 1);
        assert(run_length(s) == 1 + run_length(t));
        assert(run_sum(s) == count_of(s[0]) + run_sum(t));
        assert(s.take(m).skip(1) =~= t.take(m - 1));
        assert(s.take(m)[0] == s[0]);
        assert(sum_counts(s.take(m)) == count_of(s[0]) + sum_counts(t.take(m - 1)));
    }
}

/// Everything the maximal leading run satisfies: its extent, its kind
/// uniformity, the kind break at its end, and its summed count.
pub proof fn lemma_run_props(s: Seq<Inst>)
    requires
        s.len() > 0,
    ensures
        1 <= run_length(s) <= s.len(),
        mergeable(s[0]) ==> forall|k: int| 0 <= k < run_length(s) ==> same_kind(s[k], s[0]),
        mergeable(s[0]) && run_length(s) < s.len() ==> !same_kind(s[0], s[run_length(s)]),
        run_sum(s) == sum_counts(s.take(run_length(s))),
        !mergeable(s[0]) ==> run_length(s) == 1 && run_sum(s) == 0,
    decreases s.len(),
{
    let n = run_length(s);
    if !mergeable(s[0]) {
        assert(s.take(1) =~= seq![s[0]]);
        lemma_sum_counts_singleton(s[0]);
        assert(count_of(s[0]) == 0);
    } else if s.len() >= 2 && same_kind(s[0], s[1]) {
        let t = s.skip(1);
        lemma_run_props(t);
        assert(t[0] == s[1]);
        assert(mergeable(t[0]));
        assert forall|k: int| 0 <= k < n implies same_kind(s[k], s[0]) by {
            if k > 0 {
                assert(t[k - 1] == s[k]);
                assert(same_kind(t[k - 1], t[0]));
                lemma_same_kind_trans(s[k], s[1], s[0]);
            }
        }
        if n < s.len() {
            assert(t[n - 1] == s[n]);
            assert(!same_kind(t[0], t[n - 1]));
            if same_kind(s[0], s[n]) {
                lemma_same_kind_sym(s[0], s[1]);
                lemma_same_kind_sym(s[0], s[n]);
                lemma_same_kind_trans(s[1], s[0], s[n]);
                assert(false);
            }
        }
        assert(s.take(n)[0] == s[0]);
        assert(s.take(n).skip(1) =~= t.take(n - 1));
        assert(sum_counts(s.take(n)) == count_of(s[0]) + sum_counts(t.take(n - 1)));
    } else {
        assert(s.take(1) =~= seq![s[0]]);
        lemma_sum_counts_singleton(s[0]);
    }
}

/// No two adjacent instructions form a foldable pair.
pub open spec fn no_adjacent_runs(s: Seq<Inst>) -> bool {
    forall|i: int| 0 <= i < s.len() - 1 ==> !same_kind(#[trigger] s[i], s[i + 1])
}

proof fn lemma_with_count_kind(i: Inst, n: int)
    requires
        mergeable(i),
    ensures
        same_kind(with_count(i, n), i),
{
}

proof fn lemma_combine_no_adjacent(s: Seq<Inst>)
    ensures
        no_adjacent_runs(combine_spec(s)),
    decreases s.len(),
{
    if s.len() > 0 {
        lemma_run_props(s);
        let n = run_length(s);
        let head = if mergeable(s[0]) {
            with_count(s[0], run_sum(s))
        } else {
            s[0]
        };
        let tail = combine_spec(s.skip(n));
        lemma_combine_no_adjacent(s.skip(n));
        let out = combine_spec(s);
        assert(out == seq![head] + tail);
        assert forall|i: int| 0 <= i < out.len() - 1 implies !same_kind(#[trigger] out[i], out[i + 1]) by {
            if i == 0 {
                assert(tail.len() > 0);
                assert(s.skip(n).len() > 0);
                lemma_run_props(s.skip(n));
                let b = s.skip(n)[0];
                assert(b == s[n]);
                let t0 = tail[0];
                assert(out[0] == head && out[1] == t0);
                if same_kind(head, t0) {
                    assert(mergeable(s[0])) by {
                        if !mergeable(s[0]) {
                            assert(head == s[0]);
                            assert(!same_kind(head, t0));
                        }
                    }
                    lemma_with_count_kind(s[0], run_sum(s));
                    if mergeable(b) {
                        lemma_with_count_kind(b, run_sum(s.skip(n)));
                        assert(t0 == with_count(b, run_sum(s.skip(n))));
                        assert(same_kind(t0, b));
                        lemma_same_kind_sym(head, s[0]);
                        lemma_same_kind_trans(s[0], head, t0);
                        lemma_same_kind_trans(s[0], t0, b);
                        assert(same_kind(s[0], s[n]));
                        assert(false);
                    } else {
                        assert(t0 == b);
                        assert(!same_kind(head, t0));
                        assert(false);
                    }
                }
            } else {
                assert(out[i] == tail[i - 1] && out[i + 1] == tail[i]);
                assert(!same_kind(tail[i - 1], tail[i]));
            }
        }
    }
}

proof fn lemma_recount_identity(i: Inst)
    ensures
        with_count(i, count_of(i)) == i,
{
}

proof fn lemma_combine_flat_identity(s: Seq<Inst>)
    requires
        no_adjacent_runs(s),
    ensures
        combine_spec(s) == s,
    decreases s.len(),
{
    if s.len() > 0 {
        lemma_run_props(s);
        if s.len() >= 2 {
            assert(!same_kind(s[0], s[1]));
        }
        assert(run_length(s) == 1);
        if mergeable(s[0]) {
            assert(run_sum(s) == count_of(s[0])) by {
                assert(s.take(1) =~= seq![s[0]]);
                lemma_sum_counts_singleton(s[0]);
            }
            lemma_recount_identity(s[0]);
        }
        assert forall|i: int| 0 <= i < s.skip(1).len() - 1 implies !same_kind(
            #[trigger] s.skip(1)[i],
            s.skip(1)[i + 1],
        ) by {
            assert(s.skip(1)[i] == s[i + 1] && s.skip(1)[i + 1] == s[i + 2]);
        }
        lemma_combine_flat_identity(s.skip(1));
        assert(combine_spec(s) =~= s);
    } else {
        assert(combine_spec(s) =~= s);
    }
}

/// Run-length combining is idempotent: a second pass over already-combined
/// output changes nothing.
pub proof fn lemma_combine_idempotent(s: Seq<Inst>)
    ensures
        combine_spec(combine_spec(s)) == combine_spec(s),
{
    lemma_combine_no_adjacent(s);
    lemma_combine_flat_identity(combine_spec(s));
}

/// Combining preserves the total repetition count.
pub proof fn lemma_combine_sum_counts(s: Seq<Inst>)
    requires
        0 <= sum_counts(s) <= usize::MAX,
    ensures
        sum_counts(combine_spec(s)) == sum_counts(s),
    decreases s.len(),
{
    if s.len() > 0 {
        lemma_run_props(s);
        let n = run_length(s);
        lemma_sum_counts_split(s, n);
        lemma_sum_counts_nonneg(s.take(n));
        lemma_sum_counts_nonneg(s.skip(n));
        lemma_combine_sum_counts(s.skip(n));
        let head = if mergeable(s[0]) {
            with_count(s[0], run_sum(s))
        } else {
            s[0]
        };
        assert(count_of(head) == sum_counts(s.take(n))) by {
            if mergeable(s[0]) {
                assert(0 <= run_sum(s) <= usize::MAX);
            } else {
                assert(n == 1 && run_sum(s) == 0);
                assert(s.take(1) =~= seq![s[0]]);
                lemma_sum_counts_singleton(s[0]);
                assert(count_of(s[0]) == 0);
            }
        }
        let out = combine_spec(s);
        assert(out == seq![head] + combine_spec(s.skip(n)));
        assert(out.skip(1) =~= combine_spec(s.skip(n)));
        assert(out[0] == head);
        assert(sum_counts(out) == count_of(head) + sum_counts(combine_spec(s.skip(n))));
    }
}

fn is_mergeable(i: Inst) -> (r: bool)
    ensures
        r == mergeable(i),
{
    match i {
        Inst::Add(_) | Inst::Sub(_) | Inst::Right(_) | Inst::Left(_) => true,
        _ => false,
    }
}

fn kinds_match(a: Inst, b: Inst) -> (r: bool)
    ensures
        r == same_kind(a, b),
{
    match (a, b) {
        (Inst::Add(_), Inst::Add(_)) => true,
        (Inst::Sub(_), Inst::Sub(_)) => true,
        (Inst::Right(_), Inst::Right(_)) => true,
        (Inst::Left(_), Inst::Left(_)) => true,
        _ => false,
    }
}

fn count_val(i: Inst) -> (r: usize)
    ensures
        r as int == count_of(i),
{
    match i {
        Inst::Add(ct) => ct,
        Inst::Sub(ct) => ct,
        Inst::Right(ct) => ct,
        Inst::Left(ct) => ct,
        _ => 0,
    }
}

fn recount(i: Inst, n: usize) -> (r: Inst)
    ensures
        r == with_count(i, n as int),
{
    match i {
        Inst::Add(_) => Inst::Add(n),
        Inst::Sub(_) => Inst::Sub(n),
        Inst::Right(_) => Inst::Right(n),
        Inst::Left(_) => Inst::Left(n),
        _ => i,
    }
}

/// One left-to-right pass merging each maximal run of identical-kind
/// counted instructions into a single instruction with the summed count.
/// Loop markers and I/O pass through unchanged.
pub fn inst_combine(ir: &IR) -> (res: IR)
    requires
        sum_counts(ir@) <= usize::MAX,
    ensures
        res@ == combine_spec(ir@),
{
    let mut res: IR = Vec::new();
    let n = ir.len();
    let mut idx: usize = 0;
    proof {
        assert(ir@.skip(0) =~= ir@);
        assert(Seq::<Inst>::empty() + combine_spec(ir@) =~= combine_spec(ir@));
    }
    while idx < n
        invariant
            n == ir@.len(),
            idx <= n,
            sum_counts(ir@) <= usize::MAX,
            combine_spec(ir@) == res@ + combine_spec(ir@.skip(idx as int)),
        decreases n - idx,
    {
        let ins = ir[idx];
        if is_mergeable(ins) {
            let mut j = idx + 1;
            let mut total: usize = count_val(ins);
            proof {
                let blk = ir@.subrange(idx as int, j as int);
                assert(blk =~= seq![ins]);
                lemma_sum_counts_singleton(ins);
                lemma_sum_counts_nonneg(ir@.skip(idx as int));
            }
            while j < n && kinds_match(ir[j], ins)
                invariant
                    n == ir@.len(),
                    idx < j <= n,
                    sum_counts(ir@) <= usize::MAX,
                    ins == ir@[idx as int],
                    mergeable(ins),
                    forall|k: int| idx <= k < j ==> same_kind(ir@[k], ins),
                    total as int == sum_counts(ir@.subrange(idx as int, j as int)),
                decreases n - j,
            {
                proof {
                    lemma_sum_counts_split(ir@, idx as int);
                    lemma_sum_counts_split(ir@.skip(idx as int), j + 1 - idx as int);
                    lemma_sum_counts_nonneg(ir@.take(idx as int));
                    lemma_sum_counts_nonneg(ir@.skip(idx as int).skip(j + 1 - idx as int));
                    assert(ir@.skip(idx as int).take(j + 1 - idx as int) =~= ir@.subrange(
                        idx as int,
                        j + 1,
                    ));
                    lemma_sum_counts_nonneg(ir@.subrange(idx as int, j + 1));
                    assert(ir@.subrange(idx as int, j + 1) =~= ir@.subrange(
                        idx as int,
                        j as int,
                    ).push(ir@[j as int]));
                    lemma_sum_counts_push(ir@.subrange(idx as int, j as int), ir@[j as int]);
                }
                total = total + count_val(ir[j]);
                j = j + 1;
            }
            proof {
                let s = ir@.skip(idx as int);
                assert(s[0] == ins);
                assert forall|k: int| 0 <= k < j - idx implies same_kind(s[k], s[0]) by {
                    assert(s[k] == ir@[idx + k]);
                    assert(same_kind(ir@[idx + k], ins));
                }
                if j < n {
                    assert(s[(j - idx) as int] == ir@[j as int]);
                    lemma_same_kind_sym(ir@[j as int], ins);
                    assert(!same_kind(s[(j - idx) as int], s[0]));
                }
                lemma_run_of_block(s, j - idx as int);
                assert(s.take(j - idx as int) =~= ir@.subrange(idx as int, j as int));
                assert(s.skip(j - idx as int) =~= ir@.skip(j as int));
                assert(combine_spec(s) == seq![with_count(ins, total as int)] + combine_spec(
                    ir@.skip(j as int),
                ));
            }
            let merged = recount(ins, total);
            res.push(merged);
            proof {
                assert(combine_spec(ir@) =~= res@ + combine_spec(ir@.skip(j as int)));
            }
            idx = j;
        } else {
            res.push(ins);
            proof {
                let s = ir@.skip(idx as int);
                assert(run_length(s) == 1);
                assert(s.skip(1) =~= ir@.skip(idx + 1));
                assert(combine_spec(s) == seq![ins] + combine_spec(ir@.skip(idx + 1)));
                assert(combine_spec(ir@) =~= res@ + combine_spec(ir@.skip(idx + 1)));
            }
            idx = idx + 1;
        }
    }
    proof {
        assert(ir@.skip(n as int) =~= Seq::<Inst>::empty());
        assert(combine_spec(ir@) =~= res@);
    }
    res
}

} // verus!
