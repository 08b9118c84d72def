use semcode::bytecode::{encode_instr, Instr};
use semcode::disasm::{disasm_semcode, instr_text};
use semcode::emit::emit_ir_to_semcode;
use semcode::ir::{IrFunction, IrInstr};
use semcode::quad::QuadVal;
use semcode::passes::crystalfold::F64Op;
use semcode::runtime_core::{
    ExecutionConfig, ExecutionContext, QuotaExceeded, QuotaKind, RuntimeQuotas, RuntimeTrap,
};
use semcode::semcode_format::{write_u16_le, write_u32_le, Opcode};
use semcode::vm::{parse_semcode, validate_function_bytecode, RuntimeError, StepOutcome, Value, VM};

fn native_f64(op: F64Op, a: u64, b: u64) -> u64 {
    let x = f64::from_bits(a);
    let y = f64::from_bits(b);
    let r = match op {
        F64Op::Add => x + y,
        F64Op::Sub => x - y,
        F64Op::Mul => x * y,
        F64Op::Div => x / y,
        F64Op::Sin => x.sin(),
        F64Op::Cos => x.cos(),
        F64Op::Tan => x.tan(),
        F64Op::Sqrt => x.sqrt(),
        F64Op::Abs => x.abs(),
        F64Op::Pow => x.powf(y),
    };
    r.to_bits()
}

fn f64_display(bits: u64) -> String {
    format!("{}", f64::from_bits(bits))
}

fn function_code(strings: &[&str], instrs: &[Instr]) -> Vec<u8> {
    let mut code = Vec::new();
    write_u16_le(&mut code, strings.len() as u16);
    for s in strings {
        write_u16_le(&mut code, s.len() as u16);
        code.extend_from_slice(s.as_bytes());
    }
    for i in instrs {
        encode_instr(i, &mut code);
    }
    code
}

fn image(magic: &[u8; 8], funcs: &[(&str, Vec<&str>, Vec<Instr>)]) -> Vec<u8> {
    let mut bytes = magic.to_vec();
    for (name, strings, instrs) in funcs {
        let code = function_code(strings, instrs);
        write_u16_le(&mut bytes, name.len() as u16);
        bytes.extend_from_slice(name.as_bytes());
        write_u32_le(&mut bytes, code.len() as u32);
        bytes.extend_from_slice(&code);
    }
    bytes
}

fn main_only(instrs: Vec<Instr>) -> Vec<u8> {
    image(b"SEMCODE2", &[("main", vec![], instrs)])
}

fn run_vm(vm: &mut VM) -> Result<(), RuntimeError> {
    for _ in 0..10_000 {
        match vm.step(&native_f64)? {
            StepOutcome::Continue => {}
            StepOutcome::Finished => return Ok(()),
        }
    }
    panic!("program did not finish");
}

fn run(bytes: &[u8]) -> Result<(), RuntimeError> {
    let config = ExecutionConfig::for_context(ExecutionContext::VerifiedLocal);
    let mut vm = VM::new(bytes, "main", config)?;
    run_vm(&mut vm)
}

fn ret() -> Instr {
    Instr::Ret { flag: 0, src: 0 }
}

#[test]
fn vm_runs_program_that_only_returns() {
    let bytes = main_only(vec![ret()]);
    let config = ExecutionConfig::for_context(ExecutionContext::VerifiedLocal);
    let mut vm = VM::new(&bytes, "main", config).expect("loads");
    assert_eq!(vm.call_depth(), 1);
    assert_eq!(vm.top_register(15), Some(Value::Unit));
    assert_eq!(vm.top_register(16), None);
    assert_eq!(vm.step(&native_f64), Ok(StepOutcome::Finished));
}

#[test]
fn vm_passes_true_assert_and_traps_on_false() {
    let ok = main_only(vec![
        Instr::LoadBool { dst: 0, val: 1 },
        Instr::Assert { cond: 0 },
        ret(),
    ]);
    assert_eq!(run(&ok), Ok(()));
    let bad = main_only(vec![
        Instr::LoadBool { dst: 0, val: 0 },
        Instr::Assert { cond: 0 },
        ret(),
    ]);
    assert_eq!(run(&bad), Err(RuntimeError::Trap(RuntimeTrap::AssertionFailed)));
}

#[test]
fn vm_assert_on_non_bool_is_a_type_mismatch() {
    let bytes = main_only(vec![
        Instr::LoadI32 { dst: 0, val: -5 },
        Instr::Assert { cond: 0 },
        ret(),
    ]);
    assert_eq!(
        run(&bytes),
        Err(RuntimeError::TypeMismatchRuntime(
            "ASSERT requires bool register, got I32(-5)".to_string()
        ))
    );
}

#[test]
fn vm_add_i32_wraps() {
    let bytes = main_only(vec![
        Instr::LoadI32 { dst: 0, val: i32::MAX },
        Instr::LoadI32 { dst: 1, val: 1 },
        Instr::Binary { op: Opcode::AddI32, dst: 2, lhs: 0, rhs: 1 },
        ret(),
    ]);
    let config = ExecutionConfig::for_context(ExecutionContext::VerifiedLocal);
    let mut vm = VM::new(&bytes, "main", config).expect("loads");
    for _ in 0..3 {
        assert_eq!(vm.step(&native_f64), Ok(StepOutcome::Continue));
    }
    assert_eq!(vm.top_register(2), Some(Value::I32(i32::MIN)));
}

#[test]
fn vm_reading_missing_register_is_bad_format() {
    let config = ExecutionConfig::new(
        ExecutionContext::VerifiedLocal,
        RuntimeQuotas::verified_local(),
    );
    let bytes = main_only(vec![Instr::Assert { cond: 40 }, ret()]);
    let mut vm = VM::new(&bytes, "main", config).expect("loads");
    assert_eq!(
        vm.step(&native_f64),
        Err(RuntimeError::BadFormat("read invalid reg r40".to_string()))
    );
}

#[test]
fn vm_calls_function_and_receives_result() {
    let bytes = image(
        b"SEMCODE2",
        &[
            (
                "main",
                vec!["inc"],
                vec![
                    Instr::LoadI32 { dst: 0, val: 20 },
                    Instr::Call { flag: 1, dst: 1, sid: 0, args: vec![0] },
                    Instr::LoadI32 { dst: 3, val: 21 },
                    Instr::Binary { op: Opcode::CmpEq, dst: 4, lhs: 1, rhs: 3 },
                    Instr::Assert { cond: 4 },
                    ret(),
                ],
            ),
            (
                "inc",
                vec![],
                vec![
                    Instr::LoadI32 { dst: 1, val: 1 },
                    Instr::Binary { op: Opcode::AddI32, dst: 2, lhs: 0, rhs: 1 },
                    Instr::Ret { flag: 1, src: 2 },
                ],
            ),
        ],
    );
    let config = ExecutionConfig::for_context(ExecutionContext::VerifiedLocal);
    let mut vm = VM::new(&bytes, "main", config).expect("loads");
    vm.step(&native_f64).unwrap();
    vm.step(&native_f64).unwrap();
    assert_eq!(vm.call_depth(), 2);
    assert_eq!(vm.top_register(0), Some(Value::I32(20)));
    run_vm(&mut vm).expect("runs");
    assert_eq!(vm.call_depth(), 0);
}

#[test]
fn vm_rejects_unknown_entry_and_callee() {
    let bytes = main_only(vec![ret()]);
    let config = ExecutionConfig::for_context(ExecutionContext::VerifiedLocal);
    assert_eq!(
        VM::new(&bytes, "start", config).err(),
        Some(RuntimeError::UnknownFunction("start".to_string()))
    );
    let calls = image(
        b"SEMCODE2",
        &[(
            "main",
            vec!["missing"],
            vec![Instr::Call { flag: 0, dst: 0, sid: 0, args: vec![] }, ret()],
        )],
    );
    assert_eq!(
        run(&calls),
        Err(RuntimeError::UnknownFunction("missing".to_string()))
    );
}

#[test]
fn vm_recursion_runs_into_stack_depth_limit() {
    let bytes = image(
        b"SEMCODE2",
        &[(
            "main",
            vec!["main"],
            vec![Instr::Call { flag: 0, dst: 0, sid: 0, args: vec![] }, ret()],
        )],
    );
    assert_eq!(
        run(&bytes),
        Err(RuntimeError::QuotaExceeded(QuotaExceeded {
            kind: QuotaKind::Frames,
            limit: 256,
            used: 257
        }))
    );
    let deep = ExecutionConfig::new(
        ExecutionContext::VerifiedLocal,
        RuntimeQuotas { max_stack_depth: 3, ..RuntimeQuotas::verified_local() },
    );
    let mut vm = VM::new(&bytes, "main", deep).expect("loads");
    assert_eq!(run_vm(&mut vm), Err(RuntimeError::StackOverflow));
}

#[test]
fn vm_tuples_are_built_and_read() {
    let bytes = main_only(vec![
        Instr::LoadI32 { dst: 0, val: 1 },
        Instr::LoadBool { dst: 1, val: 1 },
        Instr::MakeTuple { dst: 2, items: vec![0, 1] },
        Instr::TupleGet { dst: 3, src: 2, index: 1 },
        Instr::Assert { cond: 3 },
        Instr::MakeTuple { dst: 4, items: vec![0, 1] },
        Instr::Binary { op: Opcode::CmpEq, dst: 5, lhs: 2, rhs: 4 },
        Instr::Assert { cond: 5 },
        ret(),
    ]);
    let config = ExecutionConfig::for_context(ExecutionContext::VerifiedLocal);
    let mut vm = VM::new(&bytes, "main", config).expect("loads");
    for _ in 0..3 {
        vm.step(&native_f64).unwrap();
    }
    assert_eq!(vm.top_register(2), Some(Value::Tuple(0)));
    assert_eq!(vm.tuple_items(0), Some(vec![Value::I32(1), Value::Bool(true)]));
    assert_eq!(vm.tuple_items(1), None);
    run_vm(&mut vm).expect("runs");
}

#[test]
fn vm_tuple_index_out_of_bounds_is_bad_format() {
    let bytes = main_only(vec![
        Instr::LoadI32 { dst: 0, val: 1 },
        Instr::MakeTuple { dst: 2, items: vec![0, 0] },
        Instr::TupleGet { dst: 3, src: 2, index: 2 },
        ret(),
    ]);
    assert_eq!(
        run(&bytes),
        Err(RuntimeError::BadFormat("tuple-get index out of bounds: 2".to_string()))
    );
}

#[test]
fn vm_stores_and_loads_locals() {
    let bytes = image(
        b"SEMCODE2",
        &[(
            "main",
            vec!["x"],
            vec![
                Instr::LoadI32 { dst: 0, val: 5 },
                Instr::StoreVar { sid: 0, src: 0 },
                Instr::LoadVar { dst: 1, sid: 0 },
                Instr::Binary { op: Opcode::CmpEq, dst: 2, lhs: 0, rhs: 1 },
                Instr::Assert { cond: 2 },
                ret(),
            ],
        )],
    );
    assert_eq!(run(&bytes), Ok(()));
    let unset = image(
        b"SEMCODE2",
        &[("main", vec!["x"], vec![Instr::LoadVar { dst: 1, sid: 0 }, ret()])],
    );
    assert_eq!(run(&unset), Err(RuntimeError::UnknownVariable("x".to_string())));
}

#[test]
fn vm_gate_read_counts_effects_and_packs_device_and_port() {
    let bytes = main_only(vec![
        Instr::GateRead { dst: 0, device_id: 1, port: 2 },
        ret(),
    ]);
    let config = ExecutionConfig::for_context(ExecutionContext::VerifiedLocal);
    let mut vm = VM::new(&bytes, "main", config).expect("loads");
    vm.step(&native_f64).unwrap();
    assert_eq!(vm.effect_calls(), 1);
    assert_eq!(vm.top_register(0), Some(Value::I32(65538)));
    let pure = ExecutionConfig::for_context(ExecutionContext::PureCompute);
    let mut vm = VM::new(&bytes, "main", pure).expect("loads");
    assert_eq!(
        vm.step(&native_f64),
        Err(RuntimeError::QuotaExceeded(QuotaExceeded {
            kind: QuotaKind::EffectCalls,
            limit: 0,
            used: 1
        }))
    );
}

#[test]
fn vm_builtin_math_goes_through_the_evaluator() {
    let bytes = image(
        b"SEMCODE2",
        &[(
            "main",
            vec!["sqrt"],
            vec![
                Instr::LoadF64 { dst: 0, bits: 9.0f64.to_bits() },
                Instr::Call { flag: 1, dst: 1, sid: 0, args: vec![0] },
                Instr::Binary { op: Opcode::MulF64, dst: 2, lhs: 1, rhs: 1 },
                ret(),
            ],
        )],
    );
    let config = ExecutionConfig::for_context(ExecutionContext::VerifiedLocal);
    let mut vm = VM::new(&bytes, "main", config).expect("loads");
    for _ in 0..3 {
        vm.step(&native_f64).unwrap();
    }
    assert_eq!(vm.top_register(1), Some(Value::F64(3.0f64.to_bits())));
    assert_eq!(vm.top_register(2), Some(Value::F64(9.0f64.to_bits())));
}

#[test]
fn vm_rejects_bad_and_unsupported_headers() {
    assert_eq!(run(b"SEMC"), Err(RuntimeError::BadHeader));
    assert_eq!(run(b"XEMCODE0"), Err(RuntimeError::BadHeader));
    assert_eq!(
        run(b"SEMCODE9"),
        Err(RuntimeError::UnsupportedBytecodeVersion {
            found: "SEMCODE9".to_string(),
            supported: "SEMCODE0, SEMCODE1, SEMCODE2, SEMCODE3, SEMCODE4, SEMCODE5, SEMCODE6, \
                        SEMCODE7, SEMCODE8, SEMCODE9, SEMCOD10, SEMCOD11, SEMCOD12, SEMCOD13"
                .to_string(),
        })
    );
}

#[test]
fn parse_rejects_jump_out_of_range_and_duplicates() {
    let bytes = main_only(vec![Instr::Jmp { addr: 100 }, ret()]);
    assert!(matches!(run(&bytes), Err(RuntimeError::BadFormat(_))));
    let dup = image(
        b"SEMCODE2",
        &[("main", vec![], vec![ret()]), ("main", vec![], vec![ret()])],
    );
    assert!(parse_semcode(&dup).is_err());
}

#[test]
fn parse_interns_strings_and_keeps_image_order() {
    let bytes = image(
        b"SEMCODE1",
        &[
            ("main", vec!["x", "y"], vec![ret()]),
            ("aux", vec!["y", "z"], vec![ret()]),
        ],
    );
    let (header, symbols, funcs) = parse_semcode(&bytes).expect("parses");
    assert_eq!(header.rev, 2);
    assert_eq!(funcs.len(), 2);
    assert_eq!(funcs[0].name, "main");
    assert_eq!(funcs[1].name, "aux");
    assert_eq!(symbols.len(), 3);
    assert_eq!(funcs[1].symbol_ids[0], funcs[0].symbol_ids[1]);
    assert!(validate_function_bytecode(&funcs[0]).is_ok());
}

#[test]
fn instr_text_matches_listing_format() {
    assert_eq!(
        instr_text(&Instr::Binary { op: Opcode::QAnd, dst: 1, lhs: 2, rhs: 3 }, &f64_display),
        "Q_AND r1, r2, r3"
    );
    assert_eq!(
        instr_text(&Instr::Call { flag: 1, dst: 4, sid: 2, args: vec![0, 1] }, &f64_display),
        "CALL dst?1 r4 fn#2 argc=2"
    );
    assert_eq!(instr_text(&Instr::LoadFx { dst: 0, val: -7 }, &f64_display), "LOAD_FX r0, raw:-7");
    assert_eq!(instr_text(&Instr::Ret { flag: 0, src: 0 }, &f64_display), "RET");
    assert_eq!(
        instr_text(&Instr::GateWrite { device_id: 3, port: 4, src: 5 }, &f64_display),
        "GATE_WRITE dev=3, port=4, r5"
    );
}

#[test]
fn disasm_lists_header_and_functions_by_name() {
    let bytes = image(
        b"SEMCODE2",
        &[
            (
                "zeta",
                vec!["s"],
                vec![
                    Instr::LoadF64 { dst: 1, bits: 1.5f64.to_bits() },
                    Instr::MakeTuple { dst: 2, items: vec![0, 1] },
                    Instr::Ret { flag: 1, src: 2 },
                ],
            ),
            ("alpha", vec![], vec![Instr::Jmp { addr: 5 }, ret()]),
        ],
    );
    let text = disasm_semcode(&bytes, &f64_display).expect("disassembles");
    let expected = "SEMCODE2 epoch=0.3 caps=0x0000000f\n\
fn alpha: code=9 bytes, strings=0, debug=0\n  0000: JMP 5\n  0005: RET\n\
fn zeta: code=29 bytes, strings=1, debug=0\n  0000: LOAD_F64 r1, 1.5\n  000b: MAKE_TUPLE r2, [r0, r1]\n  0014: RET r2\n";
    assert_eq!(text, expected);
}

#[test]
fn disasm_reports_parse_errors() {
    assert_eq!(disasm_semcode(b"XEMCODE0", &f64_display), Err(RuntimeError::BadHeader));
}

// Programs of the surface language, written out as the IR they lower to and
// emitted with the library's own emitter.

fn ir_fn(name: &str, instrs: Vec<IrInstr>) -> IrFunction {
    IrFunction { name: name.to_string(), instrs }
}

fn emitted(funcs: Vec<IrFunction>) -> Vec<u8> {
    emit_ir_to_semcode(&funcs, false).expect("emit")
}

fn run_semcode(bytes: &[u8]) -> Result<(), RuntimeError> {
    run(bytes)
}

fn run_semcode_with_config(bytes: &[u8], config: ExecutionConfig) -> Result<(), RuntimeError> {
    let mut vm = VM::new(bytes, "main", config)?;
    run_vm(&mut vm)
}

fn run_verified_semcode(bytes: &[u8]) -> Result<(), RuntimeError> {
    let config = ExecutionConfig::for_context(ExecutionContext::VerifiedLocal);
    let mut vm = VM::new_verified(bytes, "main", config)?;
    run_vm(&mut vm)
}

fn listing(bytes: &[u8]) -> String {
    disasm_semcode(bytes, &f64_display).expect("disasm")
}

// fn main() { return; }
fn empty_main_bytes() -> Vec<u8> {
    emitted(vec![ir_fn("main", vec![IrInstr::Ret { src: None }])])
}

// fn main() { assert(<flag>); return; }
fn assert_main_bytes(flag: bool) -> Vec<u8> {
    emitted(vec![ir_fn(
        "main",
        vec![
            IrInstr::LoadBool { dst: 0, val: flag },
            IrInstr::Assert { cond: 0 },
            IrInstr::Ret { src: None },
        ],
    )])
}

// fn <name>(flag: bool) -> bool <clause>(<checked> == true) { return flag; }
// fn main() { let seen: bool = <name>(false); return; }
fn checked_call_bytes(name: &str) -> Vec<u8> {
    emitted(vec![
        ir_fn(
            name,
            vec![
                IrInstr::LoadBool { dst: 1, val: true },
                IrInstr::CmpEq { dst: 2, lhs: 0, rhs: 1 },
                IrInstr::Assert { cond: 2 },
                IrInstr::Ret { src: Some(0) },
            ],
        ),
        ir_fn(
            "main",
            vec![
                IrInstr::LoadBool { dst: 0, val: false },
                IrInstr::Call { dst: Some(1), name: name.to_string(), args: vec![0] },
                IrInstr::StoreVar { name: "seen".to_string(), src: 1 },
                IrInstr::Ret { src: None },
            ],
        ),
    ])
}

// fn main() {
//     let a: bool = true;
//     let b: bool = false;
//     let c = a && b;
//     if c == false { return; } else { return; }
// }
fn bool_ops_bytes() -> Vec<u8> {
    emitted(vec![ir_fn(
        "main",
        vec![
            IrInstr::LoadBool { dst: 0, val: true },
            IrInstr::StoreVar { name: "a".to_string(), src: 0 },
            IrInstr::LoadBool { dst: 1, val: false },
            IrInstr::StoreVar { name: "b".to_string(), src: 1 },
            IrInstr::LoadVar { dst: 2, name: "a".to_string() },
            IrInstr::LoadVar { dst: 3, name: "b".to_string() },
            IrInstr::BoolAnd { dst: 4, lhs: 2, rhs: 3 },
            IrInstr::StoreVar { name: "c".to_string(), src: 4 },
            IrInstr::LoadVar { dst: 5, name: "c".to_string() },
            IrInstr::LoadBool { dst: 6, val: false },
            IrInstr::CmpEq { dst: 7, lhs: 5, rhs: 6 },
            IrInstr::JmpIf { cond: 7, label: "then".to_string() },
            IrInstr::Jmp { label: "else".to_string() },
            IrInstr::Label { name: "then".to_string() },
            IrInstr::Ret { src: None },
            IrInstr::Label { name: "else".to_string() },
            IrInstr::Ret { src: None },
        ],
    )])
}

// fn helper() { return; }
// fn main() { helper(); return; }
fn helper_call_bytes() -> Vec<u8> {
    emitted(vec![
        ir_fn("helper", vec![IrInstr::Ret { src: None }]),
        ir_fn(
            "main",
            vec![
                IrInstr::Call { dst: None, name: "helper".to_string(), args: vec![] },
                IrInstr::Ret { src: None },
            ],
        ),
    ])
}

#[test]
fn vm_runs_empty_main() {
    let bytes = empty_main_bytes();
    run_semcode(&bytes).expect("run");
}

#[test]
fn vm_runs_assert_statement_when_condition_holds() {
    let bytes = assert_main_bytes(true);
    run_semcode(&bytes).expect("assert(true) should pass");
}

#[test]
fn vm_traps_on_failed_assert() {
    let bytes = assert_main_bytes(false);
    let err = run_semcode(&bytes).expect_err("assert(false) should trap");
    assert!(matches!(err, RuntimeError::Trap(RuntimeTrap::AssertionFailed)));
}

#[test]
fn vm_traps_on_failed_function_requires_clause() {
    let bytes = checked_call_bytes("must_be_true");
    let err = run_semcode(&bytes).expect_err("requires clause should trap");
    assert!(matches!(err, RuntimeError::Trap(RuntimeTrap::AssertionFailed)));
}

#[test]
fn vm_traps_on_failed_function_ensures_clause() {
    let bytes = checked_call_bytes("must_return_true");
    let err = run_semcode(&bytes).expect_err("ensures clause should trap");
    assert!(matches!(err, RuntimeError::Trap(RuntimeTrap::AssertionFailed)));
}

#[test]
fn vm_traps_on_failed_function_invariant_clause() {
    let bytes = checked_call_bytes("must_stay_true");
    let err = run_semcode(&bytes).expect_err("invariant clause should trap");
    assert!(matches!(err, RuntimeError::Trap(RuntimeTrap::AssertionFailed)));
}

#[test]
fn vm_runs_function_invariant_clauses_when_conditions_hold() {
    // fn keep(flag: bool) -> bool invariant(flag == true) invariant(result == flag) {
    //     return flag;
    // }
    // fn main() { let seen: bool = keep(true); assert(seen == true); return; }
    let keep = ir_fn(
        "keep",
        vec![
            IrInstr::LoadBool { dst: 1, val: true },
            IrInstr::CmpEq { dst: 2, lhs: 0, rhs: 1 },
            IrInstr::Assert { cond: 2 },
            IrInstr::LoadBool { dst: 3, val: true },
            IrInstr::CmpEq { dst: 4, lhs: 0, rhs: 3 },
            IrInstr::Assert { cond: 4 },
            IrInstr::CmpEq { dst: 5, lhs: 0, rhs: 0 },
            IrInstr::Assert { cond: 5 },
            IrInstr::Ret { src: Some(0) },
        ],
    );
    let main = ir_fn(
        "main",
        vec![
            IrInstr::LoadBool { dst: 0, val: true },
            IrInstr::Call { dst: Some(1), name: "keep".to_string(), args: vec![0] },
            IrInstr::StoreVar { name: "seen".to_string(), src: 1 },
            IrInstr::LoadVar { dst: 2, name: "seen".to_string() },
            IrInstr::LoadBool { dst: 3, val: true },
            IrInstr::CmpEq { dst: 4, lhs: 2, rhs: 3 },
            IrInstr::Assert { cond: 4 },
            IrInstr::Ret { src: None },
        ],
    );
    let bytes = emitted(vec![keep, main]);
    run_semcode(&bytes).expect("invariant clauses should pass");
}

#[test]
fn vm_runs_bool_ops() {
    let bytes = bool_ops_bytes();
    run_semcode(&bytes).expect("run");
}

#[test]
fn vm_runs_quad_ops() {
    // fn main() {
    //     let a: quad = T;
    //     let b: quad = S;
    //     let c = a && b;
    //     if c == T { return; } else { return; }
    // }
    let bytes = emitted(vec![ir_fn(
        "main",
        vec![
            IrInstr::LoadQ { dst: 0, val: QuadVal::T },
            IrInstr::StoreVar { name: "a".to_string(), src: 0 },
            IrInstr::LoadQ { dst: 1, val: QuadVal::S },
            IrInstr::StoreVar { name: "b".to_string(), src: 1 },
            IrInstr::LoadVar { dst: 2, name: "a".to_string() },
            IrInstr::LoadVar { dst: 3, name: "b".to_string() },
            IrInstr::QAnd { dst: 4, lhs: 2, rhs: 3 },
            IrInstr::StoreVar { name: "c".to_string(), src: 4 },
            IrInstr::LoadVar { dst: 5, name: "c".to_string() },
            IrInstr::LoadQ { dst: 6, val: QuadVal::T },
            IrInstr::CmpEq { dst: 7, lhs: 5, rhs: 6 },
            IrInstr::JmpIf { cond: 7, label: "then".to_string() },
            IrInstr::Jmp { label: "else".to_string() },
            IrInstr::Label { name: "then".to_string() },
            IrInstr::Ret { src: None },
            IrInstr::Label { name: "else".to_string() },
            IrInstr::Ret { src: None },
        ],
    )]);
    run_semcode(&bytes).expect("run");
}

#[test]
fn vm_runs_call_ret() {
    // fn one() -> i32 { return 1; }
    // fn main() { let x: i32 = one(); return; }
    let bytes = emitted(vec![
        ir_fn(
            "one",
            vec![IrInstr::LoadI32 { dst: 0, val: 1 }, IrInstr::Ret { src: Some(0) }],
        ),
        ir_fn(
            "main",
            vec![
                IrInstr::Call { dst: Some(0), name: "one".to_string(), args: vec![] },
                IrInstr::StoreVar { name: "x".to_string(), src: 0 },
                IrInstr::Ret { src: None },
            ],
        ),
    ]);
    run_semcode(&bytes).expect("run");
}

#[test]
fn vm_runs_fx_literal_call_and_compare_path() {
    // fn id(x: fx) -> fx { return x; }
    // fn make() -> fx { return -1.25; }
    // fn main() {
    //     let x: fx = 1.25;
    //     let y: fx = id(2);
    //     let z: fx = make();
    //     let a = x == x;
    //     let b = y != z;
    //     if a == b { return; } else { return; }
    // }
    let id = ir_fn("id", vec![IrInstr::Ret { src: Some(0) }]);
    let make = ir_fn(
        "make",
        vec![IrInstr::LoadFx { dst: 0, val: -81920 }, IrInstr::Ret { src: Some(0) }],
    );
    let main = ir_fn(
        "main",
        vec![
            IrInstr::LoadFx { dst: 0, val: 81920 },
            IrInstr::StoreVar { name: "x".to_string(), src: 0 },
            IrInstr::LoadFx { dst: 1, val: 131072 },
            IrInstr::Call { dst: Some(2), name: "id".to_string(), args: vec![1] },
            IrInstr::StoreVar { name: "y".to_string(), src: 2 },
            IrInstr::Call { dst: Some(3), name: "make".to_string(), args: vec![] },
            IrInstr::StoreVar { name: "z".to_string(), src: 3 },
            IrInstr::LoadVar { dst: 4, name: "x".to_string() },
            IrInstr::LoadVar { dst: 5, name: "x".to_string() },
            IrInstr::CmpEq { dst: 6, lhs: 4, rhs: 5 },
            IrInstr::StoreVar { name: "a".to_string(), src: 6 },
            IrInstr::LoadVar { dst: 7, name: "y".to_string() },
            IrInstr::LoadVar { dst: 8, name: "z".to_string() },
            IrInstr::CmpNe { dst: 9, lhs: 7, rhs: 8 },
            IrInstr::StoreVar { name: "b".to_string(), src: 9 },
            IrInstr::LoadVar { dst: 10, name: "a".to_string() },
            IrInstr::LoadVar { dst: 11, name: "b".to_string() },
            IrInstr::CmpEq { dst: 12, lhs: 10, rhs: 11 },
            IrInstr::JmpIf { cond: 12, label: "then".to_string() },
            IrInstr::Jmp { label: "else".to_string() },
            IrInstr::Label { name: "then".to_string() },
            IrInstr::Ret { src: None },
            IrInstr::Label { name: "else".to_string() },
            IrInstr::Ret { src: None },
        ],
    );
    let bytes = emitted(vec![id, make, main]);
    let disasm = listing(&bytes);
    assert!(disasm.contains("LOAD_FX"));
    run_semcode(&bytes).expect("run");
}

#[test]
fn vm_runs_u32_literal_compare_path() {
    // fn main() {
    //     let left: u32 = 1_000u32;
    //     let right: u32 = 0x3e8u32;
    //     assert(left == right);
    //     return;
    // }
    let bytes = emitted(vec![ir_fn(
        "main",
        vec![
            IrInstr::LoadU32 { dst: 0, val: 1_000 },
            IrInstr::StoreVar { name: "left".to_string(), src: 0 },
            IrInstr::LoadU32 { dst: 1, val: 0x3e8 },
            IrInstr::StoreVar { name: "right".to_string(), src: 1 },
            IrInstr::LoadVar { dst: 2, name: "left".to_string() },
            IrInstr::LoadVar { dst: 3, name: "right".to_string() },
            IrInstr::CmpEq { dst: 4, lhs: 2, rhs: 3 },
            IrInstr::Assert { cond: 4 },
            IrInstr::Ret { src: None },
        ],
    )]);
    let disasm = listing(&bytes);
    assert!(disasm.contains("LOAD_U32"));
    run_semcode(&bytes).expect("run");
}

// fn pair(flag: bool) -> (i32, bool) { return (1, flag); }
fn pair_fn() -> IrFunction {
    ir_fn(
        "pair",
        vec![
            IrInstr::LoadI32 { dst: 1, val: 1 },
            IrInstr::MakeTuple { dst: 2, items: vec![1, 0] },
            IrInstr::Ret { src: Some(2) },
        ],
    )
}

#[test]
fn vm_runs_tuple_return_and_equality_path() {
    // fn main() {
    //     let left: (i32, bool) = pair(true);
    //     let right: (i32, bool) = (1, true);
    //     assert(left == right);
    //     return;
    // }
    let main = ir_fn(
        "main",
        vec![
            IrInstr::LoadBool { dst: 0, val: true },
            IrInstr::Call { dst: Some(1), name: "pair".to_string(), args: vec![0] },
            IrInstr::StoreVar { name: "left".to_string(), src: 1 },
            IrInstr::LoadI32 { dst: 2, val: 1 },
            IrInstr::LoadBool { dst: 3, val: true },
            IrInstr::MakeTuple { dst: 4, items: vec![2, 3] },
            IrInstr::StoreVar { name: "right".to_string(), src: 4 },
            IrInstr::LoadVar { dst: 5, name: "left".to_string() },
            IrInstr::LoadVar { dst: 6, name: "right".to_string() },
            IrInstr::CmpEq { dst: 7, lhs: 5, rhs: 6 },
            IrInstr::Assert { cond: 7 },
            IrInstr::Ret { src: None },
        ],
    );
    let bytes = emitted(vec![pair_fn(), main]);
    let disasm = listing(&bytes);
    assert!(disasm.contains("MAKE_TUPLE"));
    run_semcode(&bytes).expect("run");
}

#[test]
fn vm_runs_tuple_destructuring_bind_path() {
    // fn main() {
    //     let (count, ready): (i32, bool) = pair(true);
    //     assert(count == 1);
    //     assert(ready == true);
    //     return;
    // }
    let main = ir_fn(
        "main",
        vec![
            IrInstr::LoadBool { dst: 0, val: true },
            IrInstr::Call { dst: Some(1), name: "pair".to_string(), args: vec![0] },
            IrInstr::TupleGet { dst: 2, src: 1, index: 0 },
            IrInstr::StoreVar { name: "count".to_string(), src: 2 },
            IrInstr::TupleGet { dst: 3, src: 1, index: 1 },
            IrInstr::StoreVar { name: "ready".to_string(), src: 3 },
            IrInstr::LoadVar { dst: 4, name: "count".to_string() },
            IrInstr::LoadI32 { dst: 5, val: 1 },
            IrInstr::CmpEq { dst: 6, lhs: 4, rhs: 5 },
            IrInstr::Assert { cond: 6 },
            IrInstr::LoadVar { dst: 7, name: "ready".to_string() },
            IrInstr::LoadBool { dst: 8, val: true },
            IrInstr::CmpEq { dst: 9, lhs: 7, rhs: 8 },
            IrInstr::Assert { cond: 9 },
            IrInstr::Ret { src: None },
        ],
    );
    let bytes = emitted(vec![pair_fn(), main]);
    let disasm = listing(&bytes);
    assert!(disasm.contains("TUPLE_GET"));
    run_semcode(&bytes).expect("run");
}

#[test]
fn vm_rejects_unknown_opcode_on_load() {
    let mut bytes = empty_main_bytes();
    let opcode_pos = 8 + 2 + 4 + 4 + 2;
    bytes[opcode_pos] = 0xff;
    let err = run_semcode(&bytes).expect_err("must fail");
    assert!(matches!(err, RuntimeError::BadFormat(_)));
}

#[test]
fn vm_enforces_configured_stack_depth() {
    let bytes = helper_call_bytes();
    let mut config = ExecutionConfig::for_context(ExecutionContext::VerifiedLocal);
    config.quotas.max_stack_depth = 1;
    let err = run_semcode_with_config(&bytes, config).expect_err("must fail");
    assert_eq!(err, RuntimeError::StackOverflow);
}

#[test]
fn vm_enforces_configured_register_budget() {
    let bytes = bool_ops_bytes();
    let mut config = ExecutionConfig::for_context(ExecutionContext::VerifiedLocal);
    config.quotas.max_registers = 2;
    let err = run_semcode_with_config(&bytes, config).expect_err("must fail");
    assert_eq!(
        err,
        RuntimeError::QuotaExceeded(QuotaExceeded {
            kind: QuotaKind::Registers,
            limit: 2,
            used: 16,
        })
    );
}

#[test]
fn verified_run_rejects_invalid_bytecode_before_execution() {
    let mut bytes = empty_main_bytes();
    let opcode_pos = 8 + 2 + 4 + 4 + 2;
    bytes[opcode_pos] = 0xff;
    let err = run_verified_semcode(&bytes).expect_err("must fail");
    assert!(matches!(err, RuntimeError::VerifierRejected(_)));
}

#[test]
fn sm_vm_smoke_run() {
    let bytes = empty_main_bytes();
    run_verified_semcode(&bytes).expect("run");
    let dis = listing(&bytes);
    assert!(dis.contains("main"));
}

#[test]
fn vm_rejects_unsupported_bytecode_version_with_hint() {
    let mut bytes = empty_main_bytes();
    bytes[7] = b'X';
    let err = run_semcode(&bytes).expect_err("must fail");
    match err {
        RuntimeError::UnsupportedBytecodeVersion { found, supported } => {
            assert!(found.starts_with("SEMCODE"));
            assert!(supported.contains("SEMCODE0"));
            assert!(supported.contains("SEMCODE1"));
            assert!(supported.contains("SEMCODE2"));
            assert!(supported.contains("SEMCODE3"));
            assert!(supported.contains("SEMCODE4"));
            assert!(supported.contains("SEMCODE5"));
            assert!(supported.contains("SEMCODE6"));
            assert!(supported.contains("SEMCODE7"));
            assert!(supported.contains("SEMCODE8"));
            assert!(supported.contains("SEMCODE9"));
            assert!(supported.contains("SEMCOD10"));
            assert!(supported.contains("SEMCOD11"));
            assert!(supported.contains("SEMCOD12"));
            assert!(supported.contains("SEMCOD13"));
        }
        other => panic!("expected UnsupportedBytecodeVersion, got {other:?}"),
    }
}
