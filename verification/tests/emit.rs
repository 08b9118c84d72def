use semcode::emit::{
    emit_instr, emit_ir_to_semcode, emit_semcode_function, encoded_size, LabelTable,
    StringInterner,
};
use semcode::ir::{IrFunction, IrInstr};
use semcode::passes::crystalfold::F64Op;
use semcode::runtime_core::{ExecutionConfig, ExecutionContext};
use semcode::verify_report::{diag, reject_one, VerificationCode};
use semcode::vm::{parse_semcode, RuntimeError, StepOutcome, VM};

fn native_f64(op: F64Op, a: u64, b: u64) -> u64 {
    let x = f64::from_bits(a);
    let y = f64::from_bits(b);
    let r = match op {
        F64Op::Add => x + y,
        F64Op::Sub => x - y,
        F64Op::Mul => x * y,
        F64Op::Div => x / y,
        F64Op::Sin => x.sin(),
        F64Op::Cos => x.cos(),
        F64Op::Tan => x.tan(),
        F64Op::Sqrt => x.sqrt(),
        F64Op::Abs => x.abs(),
        F64Op::Pow => x.powf(y),
    };
    r.to_bits()
}

fn run(bytes: &[u8]) -> Result<(), RuntimeError> {
    let config = ExecutionConfig::for_context(ExecutionContext::VerifiedLocal);
    let mut vm = VM::new(bytes, "main", config)?;
    for _ in 0..10_000 {
        if vm.step(&native_f64)? == StepOutcome::Finished {
            return Ok(());
        }
    }
    panic!("program did not finish");
}

fn func(name: &str, instrs: Vec<IrInstr>) -> IrFunction {
    IrFunction { name: name.to_string(), instrs }
}

#[test]
fn emitted_program_runs_on_the_vm() {
    let main = func(
        "main",
        vec![
            IrInstr::LoadI32 { dst: 0, val: 5 },
            IrInstr::StoreVar { name: "x".to_string(), src: 0 },
            IrInstr::LoadVar { dst: 1, name: "x".to_string() },
            IrInstr::Call { dst: Some(2), name: "twice".to_string(), args: vec![1] },
            IrInstr::LoadI32 { dst: 3, val: 10 },
            IrInstr::CmpEq { dst: 4, lhs: 2, rhs: 3 },
            IrInstr::Assert { cond: 4 },
            IrInstr::Ret { src: None },
        ],
    );
    let twice = func(
        "twice",
        vec![
            IrInstr::AddI32 { dst: 1, lhs: 0, rhs: 0 },
            IrInstr::Ret { src: Some(1) },
        ],
    );
    let bytes = emit_ir_to_semcode(&[main, twice], false).expect("emits");
    assert_eq!(&bytes[0..8], b"SEMCODE0");
    let (_, _, funcs) = parse_semcode(&bytes).expect("parses");
    assert_eq!(funcs.len(), 2);
    assert_eq!(funcs[0].strings, vec!["x".to_string(), "twice".to_string()]);
    assert_eq!(run(&bytes), Ok(()));
}

#[test]
fn labels_become_offsets_of_the_next_instruction() {
    let f = func(
        "main",
        vec![
            IrInstr::LoadBool { dst: 0, val: true },
            IrInstr::JmpIf { cond: 0, label: "end".to_string() },
            IrInstr::LoadBool { dst: 1, val: false },
            IrInstr::Assert { cond: 1 },
            IrInstr::Label { name: "end".to_string() },
            IrInstr::Ret { src: None },
        ],
    );
    let code = emit_semcode_function(&f, false).expect("emits");
    // string table, LOAD_BOOL (4), JMP_IF (7) to 4 + 7 + 4 + 3 = 18
    assert_eq!(&code[0..2], &[0, 0]);
    assert_eq!(&code[6..13], &[0x31, 0, 0, 18, 0, 0, 0]);
    let bytes = emit_ir_to_semcode(&[f], false).expect("emits");
    assert_eq!(run(&bytes), Ok(()));
}

#[test]
fn backward_jump_and_exact_bytes() {
    let f = func(
        "loop",
        vec![
            IrInstr::Label { name: "top".to_string() },
            IrInstr::Ret { src: None },
            IrInstr::Jmp { label: "top".to_string() },
        ],
    );
    let code = emit_semcode_function(&f, false).expect("emits");
    assert_eq!(code, vec![0, 0, 0x41, 0, 0x30, 0, 0, 0, 0]);
}

#[test]
fn debug_table_has_one_entry_per_instruction() {
    let f = func(
        "main",
        vec![
            IrInstr::LoadI32 { dst: 0, val: 1 },
            IrInstr::Label { name: "l".to_string() },
            IrInstr::Ret { src: Some(0) },
        ],
    );
    let code = emit_semcode_function(&f, true).expect("emits");
    let mut expected = vec![0u8, 0, b'D', b'B', b'G', b'0', 2, 0];
    expected.extend_from_slice(&[0, 0, 0, 0, 1, 0, 0, 0, 1, 0]);
    expected.extend_from_slice(&[7, 0, 0, 0, 2, 0, 0, 0, 1, 0]);
    expected.extend_from_slice(&[0x03, 0, 0, 1, 0, 0, 0]);
    expected.extend_from_slice(&[0x41, 1, 0, 0]);
    assert_eq!(code, expected);
    let bytes = emit_ir_to_semcode(&[f], true).expect("emits");
    let (_, _, funcs) = parse_semcode(&bytes).expect("parses");
    assert_eq!(funcs[0].debug_symbols.len(), 2);
    assert_eq!(funcs[0].debug_symbols[1].pc, 7);
}

#[test]
fn emission_errors_carry_their_messages() {
    let unknown = func("main", vec![IrInstr::Jmp { label: "nowhere".to_string() }]);
    let err = emit_ir_to_semcode(&[unknown], false).unwrap_err();
    assert_eq!(err.message, "unknown label 'nowhere'");
    assert_eq!(err.pos, 0);
    let text = func(
        "main",
        vec![IrInstr::LoadText { dst: 0, val: "hi".to_string() }, IrInstr::Ret { src: None }],
    );
    let err = emit_ir_to_semcode(&[text], false).unwrap_err();
    assert_eq!(err.message, "instruction has no opcode in this format");
    let big = func(
        "main",
        vec![IrInstr::MakeTuple { dst: 0, items: vec![0; 70_000] }],
    );
    let err = emit_semcode_function(&big, false).unwrap_err();
    assert_eq!(err.message, "tuple literal has too many elements");
}

#[test]
fn header_follows_what_the_program_uses() {
    let f64_prog = func(
        "main",
        vec![IrInstr::LoadF64 { dst: 0, val: 1.5f64.to_bits() }, IrInstr::Ret { src: None }],
    );
    let bytes = emit_ir_to_semcode(&[f64_prog], false).expect("emits");
    assert_eq!(&bytes[0..8], b"SEMCODE1");
    let fx_prog = func(
        "main",
        vec![IrInstr::LoadFx { dst: 0, val: 3 }, IrInstr::Ret { src: None }],
    );
    let bytes = emit_ir_to_semcode(&[fx_prog], false).expect("emits");
    assert_eq!(&bytes[0..8], b"SEMCODE2");
    let empty = emit_ir_to_semcode(&[], false).expect("emits");
    assert_eq!(empty, b"SEMCODE0".to_vec());
}

#[test]
fn string_interner_keeps_first_index() {
    let mut t = StringInterner::new();
    assert_eq!(t.id("a").unwrap(), 0);
    assert_eq!(t.id("b").unwrap(), 1);
    assert_eq!(t.id("a").unwrap(), 0);
    assert_eq!(t.lookup("b").unwrap(), 1);
    assert_eq!(t.lookup("c").unwrap_err().message, "string 'c' not interned");
    let mut out = Vec::new();
    t.emit_table(&mut out).unwrap();
    assert_eq!(out, vec![2, 0, 1, 0, b'a', 1, 0, b'b']);
}

#[test]
fn label_table_keeps_last_offset() {
    let mut l = LabelTable::new();
    l.insert(&"a".to_string(), 3);
    l.insert(&"a".to_string(), 9);
    assert_eq!(l.get(&"a".to_string()), Some(9));
    assert_eq!(l.get(&"b".to_string()), None);
}

#[test]
fn encoded_sizes_match_emitted_bytes() {
    let labels = LabelTable::new();
    let t = StringInterner::new();
    let cases = vec![
        IrInstr::MakeTuple { dst: 0, items: vec![1, 2, 3] },
        IrInstr::Ret { src: Some(1) },
        IrInstr::Ret { src: None },
        IrInstr::LoadF64 { dst: 0, val: 0 },
        IrInstr::QNot { dst: 0, src: 1 },
    ];
    for i in &cases {
        let mut out = Vec::new();
        emit_instr(i, &labels, &t, &mut out).unwrap();
        assert_eq!(encoded_size(i), Some(out.len() as u32));
    }
    assert_eq!(encoded_size(&IrInstr::Label { name: "x".to_string() }), None);
    assert_eq!(
        encoded_size(&IrInstr::Call { dst: None, name: "f".to_string(), args: vec![1, 2] }),
        Some(12)
    );
}

#[test]
fn reject_report_text_lists_each_finding() {
    let one = reject_one("main", VerificationCode::UnknownOpcode, 16, "opcode 0xff");
    assert_eq!(one.message(), "verify error [UnknownOpcode] in 'main' @0x0010: opcode 0xff");
    let mut two = one.clone();
    two.diagnostics.push(diag(VerificationCode::BadHeader, None, None, "short file"));
    assert_eq!(
        two.message(),
        "verify error [UnknownOpcode] in 'main' @0x0010: opcode 0xff\nverify error [BadHeader]: short file"
    );
    assert_eq!(VerificationCode::CapabilityViolation.name(), "CapabilityViolation");
}
