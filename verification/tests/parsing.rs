//! Parser and run-length-combiner behaviour.

use bf_wasm::{inst_combine, parse, Inst};

#[test]
fn parse_maps_each_significant_character() {
    let ir = parse(&String::from("+-><[].,"));
    assert_eq!(
        ir,
        vec![
            Inst::Add(1),
            Inst::Sub(1),
            Inst::Right(1),
            Inst::Left(1),
            Inst::LoopStart,
            Inst::LoopEnd,
            Inst::Out,
            Inst::In,
        ]
    );
}

#[test]
fn parse_skips_everything_else() {
    let ir = parse(&String::from("a +\n b - # comment ?"));
    assert_eq!(ir, vec![Inst::Add(1), Inst::Sub(1)]);
}

#[test]
fn parse_accepts_empty_text() {
    let ir = parse(&String::from(""));
    assert_eq!(ir, vec![]);
}

#[test]
fn parse_keeps_source_order() {
    let ir = parse(&String::from("+>+<-"));
    assert_eq!(
        ir,
        vec![
            Inst::Add(1),
            Inst::Right(1),
            Inst::Add(1),
            Inst::Left(1),
            Inst::Sub(1),
        ]
    );
}

#[test]
fn combine_folds_runs_with_summed_counts() {
    let ir = parse(&String::from("++++"));
    assert_eq!(inst_combine(&ir), vec![Inst::Add(4)]);
}

#[test]
fn combine_folds_each_kind_separately() {
    let ir = parse(&String::from("++>>--<<"));
    assert_eq!(
        inst_combine(&ir),
        vec![Inst::Add(2), Inst::Right(2), Inst::Sub(2), Inst::Left(2)]
    );
}

#[test]
fn combine_leaves_loop_markers_and_io_alone() {
    let ir = parse(&String::from("+[,.-]"));
    assert_eq!(
        inst_combine(&ir),
        vec![
            Inst::Add(1),
            Inst::LoopStart,
            Inst::In,
            Inst::Out,
            Inst::Sub(1),
            Inst::LoopEnd,
        ]
    );
}

#[test]
fn combine_sums_counts_of_prefolded_runs() {
    let ir = vec![Inst::Add(2), Inst::Add(3), Inst::Right(1)];
    assert_eq!(inst_combine(&ir), vec![Inst::Add(5), Inst::Right(1)]);
}

#[test]
fn combine_is_idempotent() {
    let ir = parse(&String::from("+++[->>++<<]>>."));
    let once = inst_combine(&ir);
    let twice = inst_combine(&once);
    assert_eq!(once, twice);
}

#[test]
fn combine_is_idempotent_on_single_runs() {
    let once = inst_combine(&vec![Inst::Add(7)]);
    assert_eq!(once, vec![Inst::Add(7)]);
    assert_eq!(inst_combine(&once), vec![Inst::Add(7)]);
}
