//! The optimizer passes: cell-zero rewriting, loop classification, strength
//! reduction and scan recognition.

use bf_wasm::{cell_zero, get_inner_loops, inst_combine, is_simple, opt_simple_loops, parse,
    scan_opt, Inst};

fn ir_of(src: &str) -> Vec<Inst> {
    inst_combine(&parse(&String::from(src)))
}

#[test]
fn cell_zero_rewrites_decrement_loop() {
    assert_eq!(cell_zero(&ir_of("[-]")), vec![Inst::Zero(0)]);
}

#[test]
fn cell_zero_rewrites_increment_loop_and_any_count() {
    assert_eq!(cell_zero(&ir_of("[+]")), vec![Inst::Zero(0)]);
    assert_eq!(cell_zero(&ir_of("[---]")), vec![Inst::Zero(0)]);
}

#[test]
fn cell_zero_applies_inside_nested_loops() {
    let ir = ir_of("+[+[-]>]");
    assert_eq!(
        cell_zero(&ir),
        vec![
            Inst::Add(1),
            Inst::LoopStart,
            Inst::Add(1),
            Inst::Zero(0),
            Inst::Right(1),
            Inst::LoopEnd,
        ]
    );
}

#[test]
fn cell_zero_rewrites_adjacent_windows() {
    assert_eq!(cell_zero(&ir_of("[-][-]")), vec![Inst::Zero(0), Inst::Zero(0)]);
}

#[test]
fn cell_zero_leaves_other_loops_alone() {
    let ir = ir_of("[>]");
    assert_eq!(cell_zero(&ir), ir);
}

#[test]
fn inner_loops_are_found_left_to_right() {
    // [ + [ - ] ] : the only innermost span is the [-]
    let ir = ir_of("[+[-]]");
    assert_eq!(get_inner_loops(&ir), vec![(2, 4)]);
}

#[test]
fn inner_loops_of_siblings() {
    let ir = ir_of("[-]>[+]");
    assert_eq!(get_inner_loops(&ir), vec![(0, 2), (4, 6)]);
}

#[test]
fn canonical_redistribution_loop_is_simple() {
    let ir = ir_of("[->+<]");
    assert!(is_simple(&ir, 0, 5));
}

#[test]
fn nonzero_net_displacement_is_not_simple() {
    let ir = ir_of("[->+<<]");
    assert!(!is_simple(&ir, 0, 5));
}

#[test]
fn io_in_body_is_not_simple() {
    let ir = ir_of("[-.]");
    assert!(!is_simple(&ir, 0, 3));
}

#[test]
fn counter_step_other_than_one_is_not_simple() {
    let ir = ir_of("[-->++<]");
    assert!(!is_simple(&ir, 0, 5));
}

#[test]
fn two_counter_updates_are_not_simple() {
    let ir = ir_of("[->+<-]");
    assert!(!is_simple(&ir, 0, 6));
}

#[test]
fn strength_reduction_of_canonical_loop() {
    let ir = ir_of("[->+<]");
    assert_eq!(
        opt_simple_loops(&ir),
        vec![
            Inst::SimpleLoopStart(0),
            Inst::AddFrom(1, 1),
            Inst::Zero(0),
            Inst::SimpleLoopEnd,
        ]
    );
}

#[test]
fn strength_reduction_handles_several_targets() {
    let ir = ir_of("[->+>++<<-<]");
    // not simple: two displacement-zero updates
    assert_eq!(opt_simple_loops(&ir), ir);

    let ir = ir_of("[->+>++<<]");
    assert_eq!(
        opt_simple_loops(&ir),
        vec![
            Inst::SimpleLoopStart(0),
            Inst::AddFrom(1, 1),
            Inst::AddFrom(2, 2),
            Inst::Zero(0),
            Inst::SimpleLoopEnd,
        ]
    );
}

#[test]
fn strength_reduction_leaves_non_simple_loops() {
    let ir = ir_of("[.]");
    assert_eq!(opt_simple_loops(&ir), ir);
    let ir = ir_of("[>]");
    assert_eq!(opt_simple_loops(&ir), ir);
}

#[test]
fn strength_reduction_only_touches_innermost_loops() {
    let ir = ir_of("[[->+<]]");
    assert_eq!(
        opt_simple_loops(&ir),
        vec![
            Inst::LoopStart,
            Inst::SimpleLoopStart(0),
            Inst::AddFrom(1, 1),
            Inst::Zero(0),
            Inst::SimpleLoopEnd,
            Inst::LoopEnd,
        ]
    );
}

#[test]
fn scan_recognition_of_supported_strides() {
    assert_eq!(scan_opt(&ir_of("[>]")), vec![Inst::Scan(1)]);
    assert_eq!(scan_opt(&ir_of("[>>]")), vec![Inst::Scan(2)]);
    assert_eq!(scan_opt(&ir_of("[>>>>]")), vec![Inst::Scan(4)]);
    assert_eq!(scan_opt(&ir_of("[<]")), vec![Inst::Scan(-1)]);
    assert_eq!(scan_opt(&ir_of("[<<]")), vec![Inst::Scan(-2)]);
}

#[test]
fn scan_recognition_skips_unsupported_strides() {
    let ir = ir_of("[>>>]");
    assert_eq!(scan_opt(&ir), ir);
    let ir = ir_of("[<<<]");
    assert_eq!(scan_opt(&ir), ir);
}

#[test]
fn scan_recognition_rewrites_each_window() {
    let ir = ir_of("[>]+[<<]");
    assert_eq!(
        scan_opt(&ir),
        vec![Inst::Scan(1), Inst::Add(1), Inst::Scan(-2)]
    );
}
