//! The trusted boundary to the module assembler. The verified lowering
//! produces the exact `WasmOp` sequence; everything here only hands that
//! sequence, one instruction at a time, to `wasm_encoder`, assembles the
//! fixed module skeleton around it, and asks `wasmparser` whether the bytes
//! are well-formed.

use vstd::prelude::*;

use crate::ir::IR;
use crate::wasm::{codegen_ok, lower_program, lower_program_spec, WasmOp};
use crate::CompileError;

verus! {

#[verifier::external_type_specification]
#[verifier::external_body]
pub struct ExFunction(wasm_encoder::Function);

#[verifier::external_type_specification]
#[verifier::external_body]
pub struct ExTypeSection(wasm_encoder::TypeSection);

#[verifier::external_type_specification]
#[verifier::external_body]
pub struct ExImportSection(wasm_encoder::ImportSection);

#[verifier::external_type_specification]
#[verifier::external_body]
pub struct ExFunctionSection(wasm_encoder::FunctionSection);

#[verifier::external_type_specification]
#[verifier::external_body]
pub struct ExMemorySection(wasm_encoder::MemorySection);

#[verifier::external_type_specification]
#[verifier::external_body]
pub struct ExExportSection(wasm_encoder::ExportSection);

/// The instructions a function body holds so far, each as the `WasmOp` it
/// was encoded from.
pub uninterp spec fn func_ops(f: wasm_encoder::Function) -> Seq<WasmOp>;

/// Whether a byte string is a structurally well-formed module. The result of
/// `wasmparser::validate`, which depends on the bytes alone.
pub uninterp spec fn wasm_valid(bytes: Seq<u8>) -> bool;

/// Whether a function body was created with this compiler's fixed register
/// file: exactly two 32-bit integer locals (the data pointer and the scan
/// scratch register), declared as one locals group.
pub uninterp spec fn two_i32_locals(f: wasm_encoder::Function) -> bool;

/// The byte encoding of the one module this compiler emits around a given
/// entry-point body: a type section with the four fixed signatures
/// ((i32) -> () for the host byte write, () -> (i32) for the host byte read,
/// (i32, i32) -> () for debug termination, () -> () for the entry point); an
/// import section binding "env"."write", "env"."read" and
/// "env"."debug_terminate" to types 0 to 2; a function section declaring the
/// entry point with type 3; one linear memory of minimum 1 page and no
/// maximum; an export of the entry point (function index 3) as "main"; and a
/// code section holding the single two-local entry body whose instructions
/// are exactly `ops`. The encoding is a function of `ops` alone: everything
/// else about the module is fixed.
pub uninterp spec fn module_bytes(ops: Seq<WasmOp>) -> Seq<u8>;

/// Relies on wasm_encoder::Function::new: a fresh entry-point body with the
/// fixed register file (two 32-bit integer locals) holds no instructions
/// yet.
#[verifier::external_body]
fn new_entry_function() -> (f: wasm_encoder::Function)
    ensures
        func_ops(f) == Seq::<WasmOp>::empty(),
        two_i32_locals(f),
{
    wasm_encoder::Function::new([(2, wasm_encoder::ValType::I32)])
}

/// Relies on wasm_encoder::Function::instruction with Instruction::I32Const.
#[verifier::external_body]
fn emit_i32_const(f: &mut wasm_encoder::Function, v: i32)
    ensures
        func_ops(*final(f)) == func_ops(*old(f)).push(WasmOp::I32Const(v)),
        two_i32_locals(*final(f)) == two_i32_locals(*old(f)),
{
    f.instruction(&wasm_encoder::Instruction::I32Const(v));
}

/// Relies on wasm_encoder::Function::instruction with Instruction::LocalGet.
#[verifier::external_body]
fn emit_local_get(f: &mut wasm_encoder::Function, idx: u32)
    ensures
        func_ops(*final(f)) == func_ops(*old(f)).push(WasmOp::LocalGet(idx)),
        two_i32_locals(*final(f)) == two_i32_locals(*old(f)),
{
    f.instruction(&wasm_encoder::Instruction::LocalGet(idx));
}

/// Relies on wasm_encoder::Function::instruction with Instruction::LocalSet.
#[verifier::external_body]
fn emit_local_set(f: &mut wasm_encoder::Function, idx: u32)
    ensures
        func_ops(*final(f)) == func_ops(*old(f)).push(WasmOp::LocalSet(idx)),
        two_i32_locals(*final(f)) == two_i32_locals(*old(f)),
{
    f.instruction(&wasm_encoder::Instruction::LocalSet(idx));
}

/// Relies on wasm_encoder::Function::instruction with Instruction::LocalTee.
#[verifier::external_body]
fn emit_local_tee(f: &mut wasm_encoder::Function, idx: u32)
    ensures
        func_ops(*final(f)) == func_ops(*old(f)).push(WasmOp::LocalTee(idx)),
        two_i32_locals(*final(f)) == two_i32_locals(*old(f)),
{
    f.instruction(&wasm_encoder::Instruction::LocalTee(idx));
}

/// Relies on wasm_encoder::Function::instruction with Instruction::I32Add.
#[verifier::external_body]
fn emit_i32_add(f: &mut wasm_encoder::Function)
    ensures
        func_ops(*final(f)) == func_ops(*old(f)).push(WasmOp::I32Add),
        two_i32_locals(*final(f)) == two_i32_locals(*old(f)),
{
    f.instruction(&wasm_encoder::Instruction::I32Add);
}

/// Relies on wasm_encoder::Function::instruction with Instruction::I32Sub.
#[verifier::external_body]
fn emit_i32_sub(f: &mut wasm_encoder::Function)
    ensures
        func_ops(*final(f)) == func_ops(*old(f)).push(WasmOp::I32Sub),
        two_i32_locals(*final(f)) == two_i32_locals(*old(f)),
{
    f.instruction(&wasm_encoder::Instruction::I32Sub);
}

/// Relies on wasm_encoder::Function::instruction with Instruction::I32Mul.
#[verifier::external_body]
fn emit_i32_mul(f: &mut wasm_encoder::Function)
    ensures
        func_ops(*final(f)) == func_ops(*old(f)).push(WasmOp::I32Mul),
        two_i32_locals(*final(f)) == two_i32_locals(*old(f)),
{
    f.instruction(&wasm_encoder::Instruction::I32Mul);
}

/// Relies on wasm_encoder::Function::instruction with Instruction::I32Eqz.
#[verifier::external_body]
fn emit_i32_eqz(f: &mut wasm_encoder::Function)
    ensures
        func_ops(*final(f)) == func_ops(*old(f)).push(WasmOp::I32Eqz),
        two_i32_locals(*final(f)) == two_i32_locals(*old(f)),
{
    f.instruction(&wasm_encoder::Instruction::I32Eqz);
}

/// Relies on wasm_encoder::Function::instruction with Instruction::I32Ne.
#[verifier::external_body]
fn emit_i32_ne(f: &mut wasm_encoder::Function)
    ensures
        func_ops(*final(f)) == func_ops(*old(f)).push(WasmOp::I32Ne),
        two_i32_locals(*final(f)) == two_i32_locals(*old(f)),
{
    f.instruction(&wasm_encoder::Instruction::I32Ne);
}

/// Relies on wasm_encoder::Function::instruction with Instruction::I32Clz.
#[verifier::external_body]
fn emit_i32_clz(f: &mut wasm_encoder::Function)
    ensures
        func_ops(*final(f)) == func_ops(*old(f)).push(WasmOp::I32Clz),
        two_i32_locals(*final(f)) == two_i32_locals(*old(f)),
{
    f.instruction(&wasm_encoder::Instruction::I32Clz);
}

/// Relies on wasm_encoder::Function::instruction with Instruction::I32Ctz.
#[verifier::external_body]
fn emit_i32_ctz(f: &mut wasm_encoder::Function)
    ensures
        func_ops(*final(f)) == func_ops(*old(f)).push(WasmOp::I32Ctz),
        two_i32_locals(*final(f)) == two_i32_locals(*old(f)),
{
    f.instruction(&wasm_encoder::Instruction::I32Ctz);
}

/// Relies on wasm_encoder::Function::instruction with Instruction::I32Load8U
/// and a zero memory argument (offset 0, align 0, memory 0).
#[verifier::external_body]
fn emit_i32_load8_u(f: &mut wasm_encoder::Function)
    ensures
        func_ops(*final(f)) == func_ops(*old(f)).push(WasmOp::I32Load8U),
        two_i32_locals(*final(f)) == two_i32_locals(*old(f)),
{
    f.instruction(
        &wasm_encoder::Instruction::I32Load8U(
            wasm_encoder::MemArg { offset: 0, align: 0, memory_index: 0 },
        ),
    );
}

/// Relies on wasm_encoder::Function::instruction with Instruction::I32Store8
/// and a zero memory argument (offset 0, align 0, memory 0).
#[verifier::external_body]
fn emit_i32_store8(f: &mut wasm_encoder::Function)
    ensures
        func_ops(*final(f)) == func_ops(*old(f)).push(WasmOp::I32Store8),
        two_i32_locals(*final(f)) == two_i32_locals(*old(f)),
{
    f.instruction(
        &wasm_encoder::Instruction::I32Store8(
            wasm_encoder::MemArg { offset: 0, align: 0, memory_index: 0 },
        ),
    );
}

/// Relies on wasm_encoder::Function::instruction with Instruction::Call.
#[verifier::external_body]
fn emit_call(f: &mut wasm_encoder::Function, idx: u32)
    ensures
        func_ops(*final(f)) == func_ops(*old(f)).push(WasmOp::Call(idx)),
        two_i32_locals(*final(f)) == two_i32_locals(*old(f)),
{
    f.instruction(&wasm_encoder::Instruction::Call(idx));
}

/// Relies on wasm_encoder::Function::instruction with Instruction::Block and
/// an empty block type.
#[verifier::external_body]
fn emit_block(f: &mut wasm_encoder::Function)
    ensures
        func_ops(*final(f)) == func_ops(*old(f)).push(WasmOp::Block),
        two_i32_locals(*final(f)) == two_i32_locals(*old(f)),
{
    f.instruction(&wasm_encoder::Instruction::Block(wasm_encoder::BlockType::Empty));
}

/// Relies on wasm_encoder::Function::instruction with Instruction::Loop and
/// an empty block type.
#[verifier::external_body]
fn emit_loop(f: &mut wasm_encoder::Function)
    ensures
        func_ops(*final(f)) == func_ops(*old(f)).push(WasmOp::Loop),
        two_i32_locals(*final(f)) == two_i32_locals(*old(f)),
{
    f.instruction(&wasm_encoder::Instruction::Loop(wasm_encoder::BlockType::Empty));
}

/// Relies on wasm_encoder::Function::instruction with Instruction::Br.
#[verifier::external_body]
fn emit_br(f: &mut wasm_encoder::Function, label: u32)
    ensures
        func_ops(*final(f)) == func_ops(*old(f)).push(WasmOp::Br(label)),
        two_i32_locals(*final(f)) == two_i32_locals(*old(f)),
{
    f.instruction(&wasm_encoder::Instruction::Br(label));
}

/// Relies on wasm_encoder::Function::instruction with Instruction::BrIf.
#[verifier::external_body]
fn emit_br_if(f: &mut wasm_encoder::Function, label: u32)
    ensures
        func_ops(*final(f)) == func_ops(*old(f)).push(WasmOp::BrIf(label)),
        two_i32_locals(*final(f)) == two_i32_locals(*old(f)),
{
    f.instruction(&wasm_encoder::Instruction::BrIf(label));
}

/// Relies on wasm_encoder::Function::instruction with Instruction::End.
#[verifier::external_body]
fn emit_end(f: &mut wasm_encoder::Function)
    ensures
        func_ops(*final(f)) == func_ops(*old(f)).push(WasmOp::End),
        two_i32_locals(*final(f)) == two_i32_locals(*old(f)),
{
    f.instruction(&wasm_encoder::Instruction::End);
}

/// Relies on wasm_encoder::Function::instruction with Instruction::V128Const.
#[verifier::external_body]
fn emit_v128_const(f: &mut wasm_encoder::Function, v: i128)
    ensures
        func_ops(*final(f)) == func_ops(*old(f)).push(WasmOp::V128Const(v)),
        two_i32_locals(*final(f)) == two_i32_locals(*old(f)),
{
    f.instruction(&wasm_encoder::Instruction::V128Const(v));
}

/// Relies on wasm_encoder::Function::instruction with Instruction::V128Load
/// and a zero memory argument (offset 0, align 0, memory 0).
#[verifier::external_body]
fn emit_v128_load(f: &mut wasm_encoder::Function)
    ensures
        func_ops(*final(f)) == func_ops(*old(f)).push(WasmOp::V128Load),
        two_i32_locals(*final(f)) == two_i32_locals(*old(f)),
{
    f.instruction(
        &wasm_encoder::Instruction::V128Load(
            wasm_encoder::MemArg { offset: 0, align: 0, memory_index: 0 },
        ),
    );
}

/// Relies on wasm_encoder::Function::instruction with Instruction::V128And.
#[verifier::external_body]
fn emit_v128_and(f: &mut wasm_encoder::Function)
    ensures
        func_ops(*final(f)) == func_ops(*old(f)).push(WasmOp::V128And),
        two_i32_locals(*final(f)) == two_i32_locals(*old(f)),
{
    f.instruction(&wasm_encoder::Instruction::V128And);
}

/// Relies on wasm_encoder::Function::instruction with Instruction::I8x16Eq.
#[verifier::external_body]
fn emit_i8x16_eq(f: &mut wasm_encoder::Function)
    ensures
        func_ops(*final(f)) == func_ops(*old(f)).push(WasmOp::I8x16Eq),
        two_i32_locals(*final(f)) == two_i32_locals(*old(f)),
{
    f.instruction(&wasm_encoder::Instruction::I8x16Eq);
}

/// Relies on wasm_encoder::Function::instruction with
/// Instruction::I8x16Bitmask.
#[verifier::external_body]
fn emit_i8x16_bitmask(f: &mut wasm_encoder::Function)
    ensures
        func_ops(*final(f)) == func_ops(*old(f)).push(WasmOp::I8x16Bitmask),
        two_i32_locals(*final(f)) == two_i32_locals(*old(f)),
{
    f.instruction(&wasm_encoder::Instruction::I8x16Bitmask);
}

/// Appends one instruction to the function body: the dispatch from the
/// verified `WasmOp` model to the per-instruction encoders.
fn emit_op(f: &mut wasm_encoder::Function, op: &WasmOp)
    ensures
        func_ops(*final(f)) == func_ops(*old(f)).push(*op),
        two_i32_locals(*final(f)) == two_i32_locals(*old(f)),
{
    match *op {
        WasmOp::I32Const(v) => emit_i32_const(f, v),
        WasmOp::LocalGet(idx) => emit_local_get(f, idx),
        WasmOp::LocalSet(idx) => emit_local_set(f, idx),
        WasmOp::LocalTee(idx) => emit_local_tee(f, idx),
        WasmOp::I32Add => emit_i32_add(f),
        WasmOp::I32Sub => emit_i32_sub(f),
        WasmOp::I32Mul => emit_i32_mul(f),
        WasmOp::I32Eqz => emit_i32_eqz(f),
        WasmOp::I32Ne => emit_i32_ne(f),
        WasmOp::I32Clz => emit_i32_clz(f),
        WasmOp::I32Ctz => emit_i32_ctz(f),
        WasmOp::I32Load8U => emit_i32_load8_u(f),
        WasmOp::I32Store8 => emit_i32_store8(f),
        WasmOp::Call(idx) => emit_call(f, idx),
        WasmOp::Block => emit_block(f),
        WasmOp::Loop => emit_loop(f),
        WasmOp::Br(label) => emit_br(f, label),
        WasmOp::BrIf(label) => emit_br_if(f, label),
        WasmOp::End => emit_end(f),
        WasmOp::V128Const(v) => emit_v128_const(f, v),
        WasmOp::V128Load => emit_v128_load(f),
        WasmOp::V128And => emit_v128_and(f),
        WasmOp::I8x16Eq => emit_i8x16_eq(f),
        WasmOp::I8x16Bitmask => emit_i8x16_bitmask(f),
    }
}

/// Builds the entry point's body, with the two pointer-sized locals the
/// lowering uses, holding exactly the given instructions.
fn build_function(ops: &Vec<WasmOp>) -> (f: wasm_encoder::Function)
    ensures
        func_ops(f) == ops@,
        two_i32_locals(f),
{
    let mut f = new_entry_function();
    let n = ops.len();
    let mut i: usize = 0;
    proof {
        assert(func_ops(f) =~= ops@.take(0));
    }
    while i < n
        invariant
            n == ops@.len(),
            i <= n,
            func_ops(f) == ops@.take(i as int),
            two_i32_locals(f),
        decreases n - i,
    {
        emit_op(&mut f, &ops[i]);
        proof {
            assert(ops@.take(i + 1) =~= ops@.take(i as int).push(ops@[i as int]));
        }
        i = i + 1;
    }
    proof {
        assert(ops@.take(n as int) =~= ops@);
    }
    f
}

/// Relies on wasm_encoder::TypeSection: declares, in order, the host
/// byte-write signature (i32) -> (), the host byte-read signature
/// () -> (i32), the debug-termination signature (i32, i32) -> (), and the
/// entry point's signature () -> (), so that type indices 0 to 3 mean
/// exactly those.
#[verifier::external_body]
fn make_bf_types() -> wasm_encoder::TypeSection {
    let mut types = wasm_encoder::TypeSection::new();
    types.ty().function([wasm_encoder::ValType::I32], []);
    types.ty().function([], [wasm_encoder::ValType::I32]);
    types.ty().function([wasm_encoder::ValType::I32, wasm_encoder::ValType::I32], []);
    types.ty().function([], []);
    types
}

/// Relies on wasm_encoder::ImportSection: binds the host functions under the
/// fixed namespace and names of the host contract — "env"."write" with type
/// index 0, "env"."read" with type index 1, "env"."debug_terminate" with
/// type index 2 — so function indices 0 to 2 mean exactly those imports.
#[verifier::external_body]
fn make_bf_imports() -> wasm_encoder::ImportSection {
    let mut imports = wasm_encoder::ImportSection::new();
    imports.import("env", "write", wasm_encoder::EntityType::Function(0));
    imports.import("env", "read", wasm_encoder::EntityType::Function(1));
    imports.import("env", "debug_terminate", wasm_encoder::EntityType::Function(2));
    imports
}

/// Relies on wasm_encoder::FunctionSection: declares the one defined
/// function, the entry point, with type index 3 (the () -> () signature).
#[verifier::external_body]
fn make_bf_functions() -> wasm_encoder::FunctionSection {
    let mut functions = wasm_encoder::FunctionSection::new();
    functions.function(3);
    functions
}

/// Relies on wasm_encoder::MemorySection: declares one 32-bit linear memory
/// of at least 1 page with no maximum, not shared, default page size.
#[verifier::external_body]
fn make_bf_memory() -> wasm_encoder::MemorySection {
    let mut memories = wasm_encoder::MemorySection::new();
    memories.memory(
        wasm_encoder::MemoryType {
            minimum: 1,
            maximum: None,
            memory64: false,
            shared: false,
            page_size_log2: None,
        },
    );
    memories
}

/// Relies on wasm_encoder::ExportSection: exports the entry point (function
/// index 3, the first after the three imports) under the fixed name "main".
#[verifier::external_body]
fn make_bf_exports() -> wasm_encoder::ExportSection {
    let mut exports = wasm_encoder::ExportSection::new();
    exports.export("main", wasm_encoder::ExportKind::Func, 3);
    exports
}

/// Relies on wasm_encoder::Module, CodeSection and Module::finish: assembles
/// the fixed sections in the required order — types, imports, functions,
/// memories, exports, code (holding the one entry-point body) — and returns
/// the module's byte encoding, which is `module_bytes` of the body's
/// instructions since every other part of the module is fixed.
#[verifier::external_body]
fn finish_module(body: wasm_encoder::Function) -> (r: Vec<u8>)
    requires
        two_i32_locals(body),
    ensures
        r@ == module_bytes(func_ops(body)),
{
    let mut module = wasm_encoder::Module::new();
    module.section(&make_bf_types());
    module.section(&make_bf_imports());
    module.section(&make_bf_functions());
    module.section(&make_bf_memory());
    module.section(&make_bf_exports());
    let mut codes = wasm_encoder::CodeSection::new();
    codes.function(&body);
    module.section(&codes);
    module.finish()
}

/// Relies on wasmparser::validate: reports whether the bytes are a
/// structurally well-formed module, a function of the bytes alone.
#[verifier::external_body]
fn validate_module(bytes: &Vec<u8>) -> (r: bool)
    ensures
        r == wasm_valid(bytes@),
{
    wasmparser::validate(bytes.as_slice()).is_ok()
}

/// Lowers the final IR to a complete binary module: exactly the encoding of
/// the fixed skeleton (host import contract, one exported entry point, one
/// linear memory) around the entry body holding the IR's verified lowering.
/// The bytes are handed out exactly when the external verifier accepts that
/// encoding; a rejection reports a code-generator defect instead of handing
/// out a bad module.
pub fn create_wasm(ir: &IR) -> (r: Result<Vec<u8>, CompileError>)
    requires
        codegen_ok(ir@),
    ensures
        r is Ok <==> wasm_valid(module_bytes(lower_program_spec(ir@))),
        match r {
            Ok(bytes) => bytes@ == module_bytes(lower_program_spec(ir@)) && wasm_valid(bytes@),
            Err(e) => e == CompileError::ModuleRejected,
        },
{
    let ops = lower_program(ir);
    let body = build_function(&ops);
    let bytes = finish_module(body);
    if validate_module(&bytes) {
        Ok(bytes)
    } else {
        Err(CompileError::ModuleRejected)
    }
}

} // verus!
