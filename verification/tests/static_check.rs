use semcode::bytecode::{encode_instr, Instr};
use semcode::emit::emit_ir_to_semcode;
use semcode::ir::{IrFunction, IrInstr};
use semcode::runtime_core::{ExecutionConfig, ExecutionContext};
use semcode::semcode_format::{write_u16_le, write_u32_le, Opcode};
use semcode::static_check::{decode_operands, verify_semcode, StringUse};
use semcode::verify_report::{RejectReport, VerificationCode};
use semcode::vm::{RuntimeError, VM};

fn code_of(strings: &[&str], instrs: &[Instr]) -> Vec<u8> {
    let mut code = Vec::new();
    write_u16_le(&mut code, strings.len() as u16);
    for s in strings {
        write_u16_le(&mut code, s.len() as u16);
        code.extend_from_slice(s.as_bytes());
    }
    for i in instrs {
        encode_instr(i, &mut code);
    }
    code
}

fn image_of_code(magic: &[u8; 8], funcs: &[(&str, Vec<u8>)]) -> Vec<u8> {
    let mut bytes = magic.to_vec();
    for (name, code) in funcs {
        write_u16_le(&mut bytes, name.len() as u16);
        bytes.extend_from_slice(name.as_bytes());
        write_u32_le(&mut bytes, code.len() as u32);
        bytes.extend_from_slice(code);
    }
    bytes
}

fn single(magic: &[u8; 8], strings: &[&str], instrs: &[Instr]) -> Vec<u8> {
    image_of_code(magic, &[("main", code_of(strings, instrs))])
}

fn only_finding(rep: &RejectReport) -> (VerificationCode, Option<String>, Option<usize>, String) {
    assert_eq!(rep.diagnostics.len(), 1);
    let d = &rep.diagnostics[0];
    (d.code, d.function.clone(), d.offset, d.message.clone())
}

fn ret() -> Instr {
    Instr::Ret { flag: 0, src: 0 }
}

#[test]
fn accepts_well_formed_image() {
    let bytes = image_of_code(
        b"SEMCODE2",
        &[
            (
                "main",
                code_of(
                    &["aux", "x"],
                    &[
                        Instr::LoadFx { dst: 0, val: 3 },
                        Instr::StoreVar { sid: 1, src: 0 },
                        Instr::Call { flag: 1, dst: 1, sid: 0, args: vec![0] },
                        Instr::JmpIf { cond: 1, addr: 0 },
                        ret(),
                    ],
                ),
            ),
            ("aux", code_of(&[], &[Instr::Ret { flag: 1, src: 0 }])),
        ],
    );
    let p = verify_semcode(&bytes).expect("accepted");
    assert_eq!(p.header.rev, 3);
    assert_eq!(p.functions.len(), 2);
    assert_eq!(p.functions[0].name, "main");
    assert_eq!(p.functions[0].string_count, 2);
    assert_eq!(p.functions[0].debug_symbol_count, 0);
    assert_eq!(p.functions[1].code_len, 2 + 4);
}

#[test]
fn rejects_short_and_unknown_headers() {
    let rep = verify_semcode(b"SEMC").unwrap_err();
    assert_eq!(
        only_finding(&rep),
        (
            VerificationCode::BadHeader,
            None,
            None,
            "SemCode file is shorter than the 8-byte header".to_string()
        )
    );
    let rep = verify_semcode(b"SEMCODE9").unwrap_err();
    assert_eq!(
        only_finding(&rep),
        (
            VerificationCode::UnsupportedVersion,
            None,
            Some(0),
            "unsupported SemCode header 'SEMCODE9'".to_string()
        )
    );
}

#[test]
fn rejects_capability_the_header_lacks() {
    let bytes = single(
        b"SEMCODE0",
        &[],
        &[Instr::LoadF64 { dst: 0, bits: 0 }, ret()],
    );
    let rep = verify_semcode(&bytes).unwrap_err();
    assert_eq!(
        only_finding(&rep),
        (
            VerificationCode::CapabilityViolation,
            Some("main".to_string()),
            Some(0),
            "function requires capability bits 0x00000002, but header 'SEMCODE0' provides only 0x00000005"
                .to_string()
        )
    );
}

#[test]
fn rejects_unknown_callee_and_ungranted_builtin() {
    let bytes = single(
        b"SEMCODE0",
        &["nope", "sqrt"],
        &[
            Instr::Call { flag: 0, dst: 0, sid: 0, args: vec![] },
            Instr::Call { flag: 1, dst: 1, sid: 1, args: vec![0] },
            ret(),
        ],
    );
    let rep = verify_semcode(&bytes).unwrap_err();
    assert_eq!(rep.diagnostics.len(), 2);
    assert_eq!(rep.diagnostics[0].code, VerificationCode::UnknownCallTarget);
    assert_eq!(rep.diagnostics[0].offset, Some(0));
    assert_eq!(
        rep.diagnostics[0].message,
        "call target 'nope' does not resolve to any function in this SemCode program"
    );
    assert_eq!(rep.diagnostics[1].code, VerificationCode::CapabilityViolation);
    assert_eq!(rep.diagnostics[1].offset, Some(8));
    assert_eq!(
        rep.diagnostics[1].message,
        "builtin call target 'sqrt' requires capability bits 0x00000002"
    );
    let granted = single(
        b"SEMCODE1",
        &["sqrt"],
        &[Instr::Call { flag: 1, dst: 1, sid: 0, args: vec![0] }, ret()],
    );
    assert!(verify_semcode(&granted).is_ok());
}

#[test]
fn rejects_bad_jump_targets() {
    let past = single(b"SEMCODE0", &[], &[Instr::Jmp { addr: 100 }, ret()]);
    assert_eq!(
        only_finding(&verify_semcode(&past).unwrap_err()),
        (
            VerificationCode::InvalidJumpTarget,
            Some("main".to_string()),
            Some(100),
            "jump target points past the instruction stream".to_string()
        )
    );
    let inside = single(b"SEMCODE0", &[], &[Instr::Jmp { addr: 1 }, ret()]);
    assert_eq!(
        only_finding(&verify_semcode(&inside).unwrap_err()).3,
        "jump target does not land on an instruction boundary"
    );
}

#[test]
fn rejects_missing_string_and_register_budget() {
    let missing = single(b"SEMCODE0", &[], &[Instr::LoadVar { dst: 0, sid: 3 }, ret()]);
    assert_eq!(
        only_finding(&verify_semcode(&missing).unwrap_err()),
        (
            VerificationCode::InvalidStringReference,
            Some("main".to_string()),
            Some(0),
            "variable reference uses missing string id s3".to_string()
        )
    );
    let big = single(b"SEMCODE0", &[], &[Instr::LoadI32 { dst: 5000, val: 1 }, ret()]);
    assert_eq!(
        only_finding(&verify_semcode(&big).unwrap_err()),
        (
            VerificationCode::InvalidRegisterReference,
            Some("main".to_string()),
            Some(5000),
            "function references register r5000, exceeding the verified-local register budget of 4096"
                .to_string()
        )
    );
}

#[test]
fn rejects_unknown_opcode_and_cut_operands() {
    let unknown = image_of_code(b"SEMCODE0", &[("main", vec![0, 0, 0xff])]);
    assert_eq!(
        only_finding(&verify_semcode(&unknown).unwrap_err()),
        (
            VerificationCode::UnknownOpcode,
            Some("main".to_string()),
            Some(0),
            "unknown opcode 0xff".to_string()
        )
    );
    let cut = image_of_code(b"SEMCODE0", &[("main", vec![0, 0, 0x41, 0, 0x03, 1])]);
    assert_eq!(
        only_finding(&verify_semcode(&cut).unwrap_err()),
        (
            VerificationCode::OperandOutOfBounds,
            Some("main".to_string()),
            Some(2),
            "truncated dst register".to_string()
        )
    );
    let pair = single(b"SEMCODE0", &[], &[Instr::MakeTuple { dst: 0, items: vec![1] }, ret()]);
    assert_eq!(
        only_finding(&verify_semcode(&pair).unwrap_err()).3,
        "tuple literal arity must be at least 2"
    );
}

#[test]
fn findings_of_several_functions_accumulate() {
    let bytes = image_of_code(
        b"SEMCODE0",
        &[
            ("a", vec![0]),
            ("b", code_of(&[], &[Instr::Jmp { addr: 9 }])),
            ("c", code_of(&[], &[ret()])),
        ],
    );
    let rep = verify_semcode(&bytes).unwrap_err();
    assert_eq!(rep.diagnostics.len(), 2);
    assert_eq!(rep.diagnostics[0].code, VerificationCode::InvalidStringTable);
    assert_eq!(rep.diagnostics[0].message, "missing string table header");
    assert_eq!(rep.diagnostics[1].function, Some("b".to_string()));
    assert_eq!(
        rep.message(),
        "verify error [InvalidStringTable] in 'a' @0x0000: missing string table header\n\
verify error [InvalidJumpTarget] in 'b' @0x0009: jump target points past the instruction stream"
    );
}

#[test]
fn broken_function_header_ends_the_reading() {
    let mut bytes = b"SEMCODE0".to_vec();
    bytes.push(4);
    let rep = verify_semcode(&bytes).unwrap_err();
    assert_eq!(
        only_finding(&rep),
        (
            VerificationCode::TruncatedFunction,
            None,
            Some(8),
            "truncated function header while reading name length".to_string()
        )
    );
    let mut long = b"SEMCODE0".to_vec();
    write_u16_le(&mut long, 1);
    long.push(b'f');
    write_u32_le(&mut long, 50);
    let rep = verify_semcode(&long).unwrap_err();
    assert_eq!(
        only_finding(&rep),
        (
            VerificationCode::TruncatedFunction,
            Some("f".to_string()),
            Some(15),
            "function code extends past end of file".to_string()
        )
    );
}

#[test]
fn debug_section_is_checked() {
    let mut code = vec![0u8, 0];
    code.extend_from_slice(b"DBG0");
    write_u16_le(&mut code, 1);
    write_u32_le(&mut code, 7);
    write_u32_le(&mut code, 1);
    write_u16_le(&mut code, 1);
    encode_instr(&ret(), &mut code);
    let bytes = image_of_code(b"SEMCODE0", &[("main", code)]);
    let rep = verify_semcode(&bytes).unwrap_err();
    assert_eq!(
        only_finding(&rep),
        (
            VerificationCode::InvalidDebugSection,
            Some("main".to_string()),
            Some(7),
            "debug symbol pc points past the instruction stream".to_string()
        )
    );
}

#[test]
fn operands_are_decoded_with_their_uses() {
    let mut code = Vec::new();
    encode_instr(&Instr::Call { flag: 1, dst: 4, sid: 2, args: vec![5, 6] }, &mut code);
    let mut cursor = 1usize;
    let refs = decode_operands("f", &code, &mut cursor, 0, Opcode::Call).expect("decodes");
    assert_eq!(cursor, code.len());
    assert_eq!(refs.registers, vec![4, 5, 6]);
    assert_eq!(refs.string_refs, vec![(2, StringUse::CallTarget)]);
    assert!(refs.jump_targets.is_empty());
    let mut cut = 1usize;
    let rep = decode_operands("f", &code[..5], &mut cut, 0, Opcode::Call).unwrap_err();
    assert_eq!(rep.diagnostics[0].message, "truncated callee string id");
}

#[test]
fn verified_start_reports_rejection() {
    let bytes = single(b"SEMCODE0", &[], &[Instr::Jmp { addr: 100 }, ret()]);
    let config = ExecutionConfig::for_context(ExecutionContext::VerifiedLocal);
    match VM::new_verified(&bytes, "main", config) {
        Err(RuntimeError::VerifierRejected(rep)) => {
            assert_eq!(rep.diagnostics[0].code, VerificationCode::InvalidJumpTarget)
        }
        other => panic!("unexpected {:?}", other.err()),
    }
    let ok = single(b"SEMCODE0", &[], &[ret()]);
    let config = ExecutionConfig::for_context(ExecutionContext::VerifiedLocal);
    assert!(VM::new_verified(&ok, "main", config).is_ok());
}

#[test]
fn emitted_string_table_reads_back() {
    let f = IrFunction {
        name: "main".to_string(),
        instrs: vec![
            IrInstr::LoadI32 { dst: 0, val: 1 },
            IrInstr::StoreVar { name: "é".to_string(), src: 0 },
            IrInstr::LoadVar { dst: 1, name: "é".to_string() },
            IrInstr::PulseEmit { signal: "tick".to_string() },
            IrInstr::Ret { src: None },
        ],
    };
    let bytes = emit_ir_to_semcode(&[f], true).expect("emits");
    let p = verify_semcode(&bytes).expect("accepted");
    assert_eq!(p.functions[0].string_count, 2);
    assert_eq!(p.functions[0].debug_symbol_count, 5);
}

// Programs of the surface language, written out as the IR they lower to and
// emitted with the library's own emitter.

fn ir_fn(name: &str, instrs: Vec<IrInstr>) -> IrFunction {
    IrFunction { name: name.to_string(), instrs }
}

fn emitted(funcs: Vec<IrFunction>) -> Vec<u8> {
    emit_ir_to_semcode(&funcs, false).expect("emit")
}

// fn main() { return; }
fn empty_main_bytes() -> Vec<u8> {
    emitted(vec![ir_fn("main", vec![IrInstr::Ret { src: None }])])
}

// fn helper() { return; } fn main() { helper(); return; }
fn helper_call_bytes() -> Vec<u8> {
    emitted(vec![
        ir_fn("helper", vec![IrInstr::Ret { src: None }]),
        ir_fn(
            "main",
            vec![
                IrInstr::Call { dst: None, name: "helper".to_string(), args: vec![] },
                IrInstr::Ret { src: None },
            ],
        ),
    ])
}

fn find_opcode(bytes: &[u8], opcode: u8) -> Option<usize> {
    bytes.iter().position(|byte| *byte == opcode)
}

#[test]
fn verifier_accepts_valid_semcode() {
    let bytes = empty_main_bytes();
    let verified = verify_semcode(&bytes).expect("verify");
    assert_eq!(verified.functions.len(), 1);
}

#[test]
fn verifier_accepts_fx_semcode() {
    // fn id(x: fx) -> fx { return x; }
    // fn main() {
    //     let x: fx = 1.25;
    //     let y: fx = id(-2.0);
    //     if x == x { return; } else { return; }
    // }
    let bytes = emitted(vec![
        ir_fn("id", vec![IrInstr::Ret { src: Some(0) }]),
        ir_fn(
            "main",
            vec![
                IrInstr::LoadFx { dst: 0, val: 81920 },
                IrInstr::StoreVar { name: "x".to_string(), src: 0 },
                IrInstr::LoadFx { dst: 1, val: -131072 },
                IrInstr::Call { dst: Some(2), name: "id".to_string(), args: vec![1] },
                IrInstr::StoreVar { name: "y".to_string(), src: 2 },
                IrInstr::LoadVar { dst: 3, name: "x".to_string() },
                IrInstr::LoadVar { dst: 4, name: "x".to_string() },
                IrInstr::CmpEq { dst: 5, lhs: 3, rhs: 4 },
                IrInstr::JmpIf { cond: 5, label: "then".to_string() },
                IrInstr::Jmp { label: "else".to_string() },
                IrInstr::Label { name: "then".to_string() },
                IrInstr::Ret { src: None },
                IrInstr::Label { name: "else".to_string() },
                IrInstr::Ret { src: None },
            ],
        ),
    ]);
    let verified = verify_semcode(&bytes).expect("verify");
    assert_eq!(verified.header.rev, 3);
}

// fn main() { let y: f64 = 1.0 + 2.0; return; }
fn f64_sum_bytes() -> Vec<u8> {
    emitted(vec![ir_fn(
        "main",
        vec![
            IrInstr::LoadF64 { dst: 0, val: 1.0f64.to_bits() },
            IrInstr::LoadF64 { dst: 1, val: 2.0f64.to_bits() },
            IrInstr::AddF64 { dst: 2, lhs: 0, rhs: 1 },
            IrInstr::StoreVar { name: "y".to_string(), src: 2 },
            IrInstr::Ret { src: None },
        ],
    )])
}

#[test]
fn verifier_accepts_cli_o0_f64_arithmetic_storevar_layout() {
    let bytes = f64_sum_bytes();
    let verified = verify_semcode(&bytes).expect("verify");
    assert_eq!(verified.header.rev, 2);
}

#[test]
fn verifier_accepts_assert_opcode() {
    // fn main() { assert(true); return; }
    let bytes = emitted(vec![ir_fn(
        "main",
        vec![
            IrInstr::LoadBool { dst: 0, val: true },
            IrInstr::Assert { cond: 0 },
            IrInstr::Ret { src: None },
        ],
    )]);
    let verified = verify_semcode(&bytes).expect("verify");
    assert_eq!(verified.functions.len(), 1);
}

#[test]
fn verifier_accepts_u32_numeric_literal_semcode() {
    // fn main() {
    //     let left: u32 = 1_000u32;
    //     let right: u32 = 0x3e8u32;
    //     assert(left == right);
    //     return;
    // }
    let bytes = emitted(vec![ir_fn(
        "main",
        vec![
            IrInstr::LoadU32 { dst: 0, val: 1_000 },
            IrInstr::StoreVar { name: "left".to_string(), src: 0 },
            IrInstr::LoadU32 { dst: 1, val: 0x3e8 },
            IrInstr::StoreVar { name: "right".to_string(), src: 1 },
            IrInstr::LoadVar { dst: 2, name: "left".to_string() },
            IrInstr::LoadVar { dst: 3, name: "right".to_string() },
            IrInstr::CmpEq { dst: 4, lhs: 2, rhs: 3 },
            IrInstr::Assert { cond: 4 },
            IrInstr::Ret { src: None },
        ],
    )]);
    let verified = verify_semcode(&bytes).expect("verify");
    assert_eq!(verified.functions.len(), 1);
}

#[test]
fn verifier_rejects_short_header() {
    let report = verify_semcode(b"SEMC").expect_err("must reject");
    assert_eq!(report.diagnostics[0].code, VerificationCode::BadHeader);
}

#[test]
fn verifier_rejects_unknown_opcode() {
    let mut bytes = empty_main_bytes();
    let opcode_pos = 8 + 2 + 4 + 4 + 2;
    bytes[opcode_pos] = 0xff;
    let report = verify_semcode(&bytes).expect_err("must reject");
    assert_eq!(report.diagnostics[0].code, VerificationCode::UnknownOpcode);
}

#[test]
fn verifier_rejects_truncated_function_body() {
    let mut bytes = empty_main_bytes();
    bytes.truncate(bytes.len() - 1);
    let report = verify_semcode(&bytes).expect_err("must reject");
    assert_eq!(report.diagnostics[0].code, VerificationCode::TruncatedFunction);
}

#[test]
fn verifier_rejects_truncated_string_table() {
    let mut bytes = empty_main_bytes();
    let code_len_pos = 8 + 2 + 4;
    bytes[code_len_pos..code_len_pos + 4].copy_from_slice(&1u32.to_le_bytes());
    let report = verify_semcode(&bytes).expect_err("must reject");
    assert_eq!(report.diagnostics[0].code, VerificationCode::InvalidStringTable);
}

#[test]
fn verifier_rejects_jump_past_instruction_stream() {
    // fn main() { if true { return; } return; }
    let mut bytes = emitted(vec![ir_fn(
        "main",
        vec![
            IrInstr::LoadBool { dst: 0, val: true },
            IrInstr::JmpIf { cond: 0, label: "then".to_string() },
            IrInstr::Jmp { label: "after".to_string() },
            IrInstr::Label { name: "then".to_string() },
            IrInstr::Ret { src: None },
            IrInstr::Label { name: "after".to_string() },
            IrInstr::Ret { src: None },
        ],
    )]);
    let opcode_pos = find_opcode(&bytes, Opcode::JmpIf.byte()).expect("jmpif");
    let target_pos = opcode_pos + 1 + 2;
    bytes[target_pos..target_pos + 4].copy_from_slice(&999u32.to_le_bytes());
    let report = verify_semcode(&bytes).expect_err("must reject");
    assert_eq!(report.diagnostics[0].code, VerificationCode::InvalidJumpTarget);
}

#[test]
fn verifier_rejects_bad_string_reference() {
    let mut bytes = helper_call_bytes();
    let opcode_pos = find_opcode(&bytes, Opcode::Call.byte()).expect("call");
    let sid_pos = opcode_pos + 1 + 1 + 2;
    bytes[sid_pos..sid_pos + 2].copy_from_slice(&99u16.to_le_bytes());
    let report = verify_semcode(&bytes).expect_err("must reject");
    assert_eq!(report.diagnostics[0].code, VerificationCode::InvalidStringReference);
}

#[test]
fn verifier_rejects_register_past_verified_local_budget() {
    // fn main() { let a: bool = true; return; }
    let mut bytes = emitted(vec![ir_fn(
        "main",
        vec![
            IrInstr::LoadBool { dst: 0, val: true },
            IrInstr::StoreVar { name: "a".to_string(), src: 0 },
            IrInstr::Ret { src: None },
        ],
    )]);
    let opcode_pos = find_opcode(&bytes, Opcode::LoadBool.byte()).expect("load bool");
    let dst_pos = opcode_pos + 1;
    bytes[dst_pos..dst_pos + 2].copy_from_slice(&5000u16.to_le_bytes());
    let report = verify_semcode(&bytes).expect_err("must reject");
    assert_eq!(report.diagnostics[0].code, VerificationCode::InvalidRegisterReference);
}

#[test]
fn verifier_rejects_unknown_call_target() {
    let mut bytes = helper_call_bytes();
    let helper_pos = bytes
        .windows(b"helper".len())
        .rposition(|window| window == b"helper")
        .expect("helper string");
    bytes[helper_pos..helper_pos + b"helper".len()].copy_from_slice(b"gh0st!");
    let report = verify_semcode(&bytes).expect_err("must reject");
    assert_eq!(report.diagnostics[0].code, VerificationCode::UnknownCallTarget);
}

#[test]
fn verifier_rejects_f64_ops_under_v0_capabilities() {
    let mut bytes = f64_sum_bytes();
    bytes[7] = b'0';
    let report = verify_semcode(&bytes).expect_err("must reject");
    assert_eq!(report.diagnostics[0].code, VerificationCode::CapabilityViolation);
}

#[test]
fn verifier_accepts_builtin_f64_call_targets() {
    // fn main() { let y: f64 = sqrt(16.0); return; }
    let bytes = emitted(vec![ir_fn(
        "main",
        vec![
            IrInstr::LoadF64 { dst: 0, val: 16.0f64.to_bits() },
            IrInstr::Call { dst: Some(1), name: "sqrt".to_string(), args: vec![0] },
            IrInstr::StoreVar { name: "y".to_string(), src: 1 },
            IrInstr::Ret { src: None },
        ],
    )]);
    let verified = verify_semcode(&bytes).expect("verify");
    assert_eq!(verified.header.rev, 2);
}
