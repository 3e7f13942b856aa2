//! The emitted binary module: lowering, assembly, structural validation and
//! the compile entry point's error reporting.

use bf_wasm::wasm::{lower_program, WasmOp, DEBUG_FN, DP};
use bf_wasm::{compile, create_wasm, CompileError, Inst};

#[test]
fn lowering_of_a_single_add() {
    let ops = lower_program(&vec![Inst::Add(3)]);
    assert_eq!(
        ops,
        vec![
            // prologue: park the data pointer
            WasmOp::I32Const(16),
            WasmOp::LocalSet(DP),
            // the add itself
            WasmOp::LocalGet(DP),
            WasmOp::LocalGet(DP),
            WasmOp::I32Load8U,
            WasmOp::I32Const(3),
            WasmOp::I32Add,
            WasmOp::I32Store8,
            // epilogue: debug termination and function end
            WasmOp::LocalGet(DP),
            WasmOp::LocalGet(DP),
            WasmOp::I32Load8U,
            WasmOp::Call(DEBUG_FN),
            WasmOp::End,
        ]
    );
}

#[test]
fn lowering_elides_the_multiply_for_unit_counts() {
    let ops = lower_program(&vec![Inst::AddFrom(1, 2)]);
    assert!(!ops.contains(&WasmOp::I32Mul));
    let ops = lower_program(&vec![Inst::AddFrom(3, 2)]);
    assert!(ops.contains(&WasmOp::I32Mul));
    assert!(ops.contains(&WasmOp::I32Const(3)));
}

#[test]
fn lowering_of_loops_nests_blocks() {
    let ops = lower_program(&vec![Inst::LoopStart, Inst::Sub(1), Inst::LoopEnd]);
    let blocks = ops.iter().filter(|o| matches!(o, WasmOp::Block)).count();
    let loops = ops.iter().filter(|o| matches!(o, WasmOp::Loop)).count();
    let ends = ops.iter().filter(|o| matches!(o, WasmOp::End)).count();
    assert_eq!(blocks, 1);
    assert_eq!(loops, 1);
    // block + loop ends, plus the function's own end
    assert_eq!(ends, 3);
}

#[test]
fn lowering_of_scans_uses_vector_ops() {
    let ops = lower_program(&vec![Inst::Scan(2)]);
    assert!(ops.contains(&WasmOp::V128Load));
    assert!(ops.contains(&WasmOp::I8x16Bitmask));
    assert!(ops.contains(&WasmOp::I32Ctz));
    assert!(ops.contains(&WasmOp::V128And));

    let ops = lower_program(&vec![Inst::Scan(-1)]);
    assert!(ops.contains(&WasmOp::I32Clz));
    assert!(!ops.contains(&WasmOp::V128And));
}

#[test]
fn compiled_module_passes_external_validation() {
    let bytes = compile("++++[->+<]>.", true, true, true).unwrap();
    assert!(wasmparser::validate(&bytes).is_ok());
}

#[test]
fn compiled_module_with_every_feature_validates() {
    let bytes = compile("+[->++<]>[>]<[<]>[-],.", true, true, true).unwrap();
    assert!(wasmparser::validate(&bytes).is_ok());
    let bytes = compile("+[->++<]>[>]<[<]>[-],.", false, false, false).unwrap();
    assert!(wasmparser::validate(&bytes).is_ok());
}

#[test]
fn emitted_body_holds_the_lowered_instructions() {
    let bytes = create_wasm(&vec![Inst::Add(3)]).unwrap();
    let mut body_ops: Vec<String> = vec![];
    for payload in wasmparser::Parser::new(0).parse_all(&bytes) {
        if let wasmparser::Payload::CodeSectionEntry(body) = payload.unwrap() {
            let mut reader = body.get_operators_reader().unwrap();
            while !reader.eof() {
                body_ops.push(format!("{:?}", reader.read().unwrap()));
            }
        }
    }
    let expected = vec![
        "I32Const { value: 16 }",
        "LocalSet { local_index: 0 }",
        "LocalGet { local_index: 0 }",
        "LocalGet { local_index: 0 }",
        "I32Load8U { memarg: MemArg { align: 0, max_align: 0, offset: 0, memory: 0 } }",
        "I32Const { value: 3 }",
        "I32Add",
        "I32Store8 { memarg: MemArg { align: 0, max_align: 0, offset: 0, memory: 0 } }",
        "LocalGet { local_index: 0 }",
        "LocalGet { local_index: 0 }",
        "I32Load8U { memarg: MemArg { align: 0, max_align: 0, offset: 0, memory: 0 } }",
        "Call { function_index: 2 }",
        "End",
    ];
    assert_eq!(body_ops, expected);
}

#[test]
fn module_exports_main_and_imports_the_host_contract() {
    let bytes = compile("+", false, false, false).unwrap();
    let mut imports: Vec<(String, String)> = vec![];
    let mut exports: Vec<String> = vec![];
    for payload in wasmparser::Parser::new(0).parse_all(&bytes) {
        match payload.unwrap() {
            wasmparser::Payload::ImportSection(reader) => {
                for group in reader {
                    if let wasmparser::Imports::Single(_, imp) = group.unwrap() {
                        imports.push((imp.module.to_string(), imp.name.to_string()));
                    } else {
                        panic!("unexpected compact import group");
                    }
                }
            }
            wasmparser::Payload::ExportSection(reader) => {
                for exp in reader {
                    exports.push(exp.unwrap().name.to_string());
                }
            }
            _ => {}
        }
    }
    assert_eq!(
        imports,
        vec![
            ("env".to_string(), "write".to_string()),
            ("env".to_string(), "read".to_string()),
            ("env".to_string(), "debug_terminate".to_string()),
        ]
    );
    assert_eq!(exports, vec!["main".to_string()]);
}

#[test]
fn compile_emits_exactly_the_pipeline_module() {
    // the same source, compiled as one call and as the staged pipeline,
    // yields byte-identical modules
    let src = "++++[->+<]>[>]<[-].";
    let via_compile = compile(src, true, true, true).unwrap();

    let mut ir = bf_wasm::inst_combine(&bf_wasm::parse(&String::from(src)));
    ir = bf_wasm::cell_zero(&ir);
    ir = bf_wasm::opt_simple_loops(&ir);
    ir = bf_wasm::scan_opt(&ir);
    let via_stages = create_wasm(&ir).unwrap();

    assert_eq!(via_compile, via_stages);
}

#[test]
fn unbalanced_brackets_are_reported() {
    assert_eq!(compile("[", true, true, true), Err(CompileError::MalformedProgram));
    assert_eq!(compile("]", true, true, true), Err(CompileError::MalformedProgram));
    assert_eq!(compile("[[]", false, false, false), Err(CompileError::MalformedProgram));
    assert_eq!(compile("+[-]]", false, false, false), Err(CompileError::MalformedProgram));
}

#[test]
fn balanced_brackets_compile() {
    assert!(compile("[[][]]", true, true, true).is_ok());
    assert!(compile("", true, true, true).is_ok());
}
