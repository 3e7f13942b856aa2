//! End-to-end behaviour, checked on the reference evaluator: the optimized
//! forms compute what the bracketed originals compute.

use bf_wasm::sem::{run_program, Machine};
use bf_wasm::{cell_zero, inst_combine, is_simple, opt_simple_loops, parse, scan_opt, Inst};

fn ir_of(src: &str) -> Vec<Inst> {
    inst_combine(&parse(&String::from(src)))
}

fn machine(mem: Vec<u8>, ptr: usize, input: Vec<u8>) -> Machine {
    Machine { mem, ptr, input, output: vec![] }
}

#[test]
fn four_increments_leave_cell_zero_at_four() {
    let ir = ir_of("++++");
    let m = run_program(&ir, machine(vec![0; 8], 0, vec![]), 100).unwrap();
    assert_eq!(m.mem[0], 4);
    assert_eq!(m.ptr, 0);
}

#[test]
fn decrement_loop_reduces_to_zero_store_and_clears_the_cell() {
    let ir = ir_of("[-]");
    let reduced = cell_zero(&ir);
    assert_eq!(reduced, vec![Inst::Zero(0)]);

    let mut mem = vec![0u8; 8];
    mem[0] = 5;
    let original = run_program(&ir, machine(mem.clone(), 0, vec![]), 100).unwrap();
    let rewritten = run_program(&reduced, machine(mem, 0, vec![]), 100).unwrap();
    assert_eq!(original.mem[0], 0);
    assert_eq!(rewritten.mem[0], 0);
    assert_eq!(original.ptr, rewritten.ptr);
    assert_eq!(original.mem, rewritten.mem);
}

#[test]
fn redistribution_loop_is_simple_and_moves_the_counter() {
    let ir = ir_of("[->+<]");
    assert!(is_simple(&ir, 0, 5));
    let reduced = opt_simple_loops(&ir);
    assert!(reduced.contains(&Inst::AddFrom(1, 1)));

    let mut mem = vec![0u8; 8];
    mem[0] = 3;
    let original = run_program(&ir, machine(mem.clone(), 0, vec![]), 100).unwrap();
    let rewritten = run_program(&reduced, machine(mem, 0, vec![]), 100).unwrap();
    assert_eq!(original.mem[0], 0);
    assert_eq!(original.mem[1], 3);
    assert_eq!(rewritten.mem[0], 0);
    assert_eq!(rewritten.mem[1], 3);
    assert_eq!(original.ptr, rewritten.ptr);
    assert_eq!(original.mem, rewritten.mem);
}

#[test]
fn subtractive_redistribution_loop_matches_its_reduced_form() {
    let ir = ir_of("[->-<]");
    let reduced = opt_simple_loops(&ir);
    assert!(reduced.contains(&Inst::SubFrom(1, 1)));

    let mut mem = vec![0u8; 8];
    mem[0] = 3;
    mem[1] = 10;
    let original = run_program(&ir, machine(mem.clone(), 0, vec![]), 100).unwrap();
    let rewritten = run_program(&reduced, machine(mem, 0, vec![]), 100).unwrap();
    assert_eq!(original.mem[0], 0);
    assert_eq!(original.mem[1], 7);
    assert_eq!(original.mem, rewritten.mem);
    assert_eq!(original.ptr, rewritten.ptr);
}

#[test]
fn redistribution_multiplies_by_the_per_iteration_count() {
    // counter 5, two increments per iteration: target ends at 10
    let ir = ir_of("[->++<]");
    let reduced = opt_simple_loops(&ir);
    assert!(reduced.contains(&Inst::AddFrom(2, 1)));
    let mut mem = vec![0u8; 8];
    mem[0] = 5;
    let original = run_program(&ir, machine(mem.clone(), 0, vec![]), 100).unwrap();
    let rewritten = run_program(&reduced, machine(mem, 0, vec![]), 100).unwrap();
    assert_eq!(original.mem[1], 10);
    assert_eq!(rewritten.mem[1], 10);
    assert_eq!(original.mem, rewritten.mem);
}

#[test]
fn one_input_byte_is_echoed_to_output() {
    let ir = ir_of(",.");
    let m = run_program(&ir, machine(vec![0; 8], 0, vec![42]), 100).unwrap();
    assert_eq!(m.output, vec![42]);
    assert!(m.input.is_empty());
}

#[test]
fn scan_loop_reduces_to_scan_and_halts_at_first_zero() {
    let ir = ir_of("[>]");
    let reduced = scan_opt(&ir);
    assert_eq!(reduced, vec![Inst::Scan(1)]);

    let mut mem = vec![0u8; 16];
    mem[0] = 5;
    mem[1] = 5;
    mem[2] = 5;
    let original = run_program(&ir, machine(mem.clone(), 0, vec![]), 100).unwrap();
    let rewritten = run_program(&reduced, machine(mem, 0, vec![]), 100).unwrap();
    assert_eq!(original.ptr, 3);
    assert_eq!(rewritten.ptr, 3);
    assert_eq!(original.mem, rewritten.mem);
}

#[test]
fn backward_scan_matches_its_bracket_form() {
    let ir = ir_of("[<<]");
    let reduced = scan_opt(&ir);
    assert_eq!(reduced, vec![Inst::Scan(-2)]);

    let mut mem = vec![0u8; 16];
    mem[6] = 9;
    mem[4] = 9;
    // mem[2] == 0: both forms should stop there
    let original = run_program(&ir, machine(mem.clone(), 6, vec![]), 100).unwrap();
    let rewritten = run_program(&reduced, machine(mem, 6, vec![]), 100).unwrap();
    assert_eq!(original.ptr, 2);
    assert_eq!(rewritten.ptr, 2);
}

#[test]
fn arithmetic_wraps_at_eight_bits() {
    let ir = ir_of("-");
    let m = run_program(&ir, machine(vec![0; 4], 0, vec![]), 10).unwrap();
    assert_eq!(m.mem[0], 255);

    let ir = ir_of("++");
    let mut mem = vec![0u8; 4];
    mem[0] = 255;
    let m = run_program(&ir, machine(mem, 0, vec![]), 10).unwrap();
    assert_eq!(m.mem[0], 1);
}

#[test]
fn increment_loop_wraps_around_to_zero() {
    let ir = ir_of("[+]");
    let mut mem = vec![0u8; 4];
    mem[0] = 250;
    let m = run_program(&ir, machine(mem, 0, vec![]), 300).unwrap();
    assert_eq!(m.mem[0], 0);
}

#[test]
fn running_out_of_fuel_reports_no_result() {
    let ir = ir_of("[-]");
    let mut mem = vec![0u8; 4];
    mem[0] = 50;
    assert!(run_program(&ir, machine(mem, 0, vec![]), 3).is_none());
}

#[test]
fn reading_past_the_input_script_gets_stuck() {
    let ir = ir_of(",,");
    assert!(run_program(&ir, machine(vec![0; 4], 0, vec![7]), 10).is_none());
}

#[test]
fn unmatched_close_bracket_gets_stuck() {
    let ir = ir_of("]");
    assert!(run_program(&ir, machine(vec![0; 4], 0, vec![]), 10).is_none());
}

#[test]
fn moving_off_the_tape_gets_stuck() {
    let ir = ir_of("<");
    assert!(run_program(&ir, machine(vec![0; 4], 0, vec![]), 10).is_none());
}

#[test]
fn full_pipeline_agrees_with_raw_form_on_a_small_program() {
    // set cell0 = 4, redistribute it to cell1, then echo one input byte
    let raw = ir_of("++++[->+<],.");
    let mut piped = cell_zero(&raw);
    piped = opt_simple_loops(&piped);
    piped = scan_opt(&piped);

    let a = run_program(&raw, machine(vec![0; 8], 0, vec![9]), 1000).unwrap();
    let b = run_program(&piped, machine(vec![0; 8], 0, vec![9]), 1000).unwrap();
    assert_eq!(a.mem, b.mem);
    assert_eq!(a.ptr, b.ptr);
    assert_eq!(a.output, b.output);
    assert_eq!(a.mem[1], 4);
}
