//! The static checker: it reads a SemCode image without running it and
//! either accepts it, with a summary of each function, or rejects it with
//! every finding it made. It checks the header, each function's tables and
//! instruction operands, the capabilities the code needs against those the
//! header grants, jump targets, string references, register numbers and
//! call targets, within the quotas for verified local runs.
use crate::runtime_core::{RuntimeQuotas, RuntimeSymbolTable};
use crate::semcode_format::{
    le_u16_at, le_u32_at, opcode_of_byte, read_u16_le, read_u32_le, read_u8, Opcode, CAP_DEBUG_SYMBOLS,
    CAP_F64_MATH, CAP_FX_VALUES, CAP_GATE_SURFACE,
};
use crate::verify_report::{diag, reject_one, RejectReport, VerificationCode, VerificationDiagnostic, VerifiedFunction};
use vstd::prelude::*;

verus! {

/// What a string operand names.
#[derive(Debug, Clone, Copy, PartialEq, Eq, Structural)]
pub enum StringUse {
    Variable,
    CallTarget,
    PulseSignal,
}

/// How a string use is named in a finding.
pub open spec fn use_text(u: StringUse) -> Seq<char> {
    match u {
        StringUse::Variable => "variable reference"@,
        StringUse::CallTarget => "call target"@,
        StringUse::PulseSignal => "pulse signal"@,
    }
}

/// One fixed operand: a register, a literal of one, two, four or eight
/// bytes, a string index or a jump target.
#[derive(Debug, Clone, Copy, PartialEq, Eq, Structural)]
pub enum FieldKind {
    Reg,
    Byte,
    Half,
    Word,
    Long,
    Sid(StringUse),
    Jump,
}

/// The width of an operand in bytes.
pub open spec fn field_width(k: FieldKind) -> int {
    match k {
        FieldKind::Byte => 1,
        FieldKind::Reg | FieldKind::Half | FieldKind::Sid(_) => 2,
        FieldKind::Word | FieldKind::Jump => 4,
        FieldKind::Long => 8,
    }
}

/// What follows the fixed operands of an instruction.
#[derive(Debug, Clone, Copy, PartialEq, Eq, Structural)]
pub enum Tail {
    Nothing,
    Registers,
    AtLeastTwoRegisters,
    ReturnSource,
}

/// The fixed operands of each opcode, each with the message for when it is
/// cut off.
pub open spec fn layout(op: Opcode) -> Seq<(FieldKind, Seq<char>)> {
    let dst = (FieldKind::Reg, "truncated dst register"@);
    let three = seq![dst, (FieldKind::Reg, "truncated lhs register"@), (FieldKind::Reg, "truncated rhs register"@)];
    match op {
        Opcode::LoadQ => seq![dst, (FieldKind::Byte, "truncated quad literal"@)],
        Opcode::LoadBool => seq![dst, (FieldKind::Byte, "truncated bool literal"@)],
        Opcode::LoadI32 => seq![dst, (FieldKind::Word, "truncated i32 literal"@)],
        Opcode::LoadU32 => seq![dst, (FieldKind::Word, "truncated u32 literal"@)],
        Opcode::LoadF64 => seq![dst, (FieldKind::Long, "truncated f64 literal"@)],
        Opcode::LoadFx => seq![dst, (FieldKind::Word, "truncated fx literal"@)],
        Opcode::MakeTuple => seq![(FieldKind::Reg, "truncated tuple dst register"@)],
        Opcode::TupleGet => seq![
            (FieldKind::Reg, "truncated tuple-get dst register"@),
            (FieldKind::Reg, "truncated tuple-get src register"@),
            (FieldKind::Half, "truncated tuple-get index"@),
        ],
        Opcode::LoadVar => seq![dst, (FieldKind::Sid(StringUse::Variable), "truncated variable string id"@)],
        Opcode::StoreVar => seq![
            (FieldKind::Sid(StringUse::Variable), "truncated variable string id"@),
            (FieldKind::Reg, "truncated src register"@),
        ],
        Opcode::QNot | Opcode::BoolNot => seq![dst, (FieldKind::Reg, "truncated src register"@)],
        Opcode::Jmp => seq![(FieldKind::Jump, "truncated jump target"@)],
        Opcode::JmpIf => seq![
            (FieldKind::Reg, "truncated condition register"@),
            (FieldKind::Jump, "truncated jump target"@),
        ],
        Opcode::Call => seq![
            (FieldKind::Byte, "truncated call destination flag"@),
            (FieldKind::Reg, "truncated call dst register"@),
            (FieldKind::Sid(StringUse::CallTarget), "truncated callee string id"@),
        ],
        Opcode::Assert => seq![(FieldKind::Reg, "truncated assert condition register"@)],
        Opcode::GateRead => seq![
            (FieldKind::Reg, "truncated gate dst register"@),
            (FieldKind::Half, "truncated gate device id"@),
            (FieldKind::Half, "truncated gate port"@),
        ],
        Opcode::GateWrite => seq![
            (FieldKind::Half, "truncated gate device id"@),
            (FieldKind::Half, "truncated gate port"@),
            (FieldKind::Reg, "truncated gate src register"@),
        ],
        Opcode::PulseEmit => seq![(FieldKind::Sid(StringUse::PulseSignal), "truncated signal string id"@)],
        Opcode::Ret => seq![(FieldKind::Byte, "truncated return flag"@)],
        _ => three,
    }
}

/// What follows the fixed operands of each opcode.
pub open spec fn tail_of(op: Opcode) -> Tail {
    match op {
        Opcode::MakeTuple => Tail::AtLeastTwoRegisters,
        Opcode::Call => Tail::Registers,
        Opcode::Ret => Tail::ReturnSource,
        _ => Tail::Nothing,
    }
}

/// The messages for a cut-off register count and a cut-off register of a
/// register list.
pub open spec fn list_messages(op: Opcode) -> (Seq<char>, Seq<char>) {
    if op is MakeTuple {
        ("truncated tuple arity"@, "truncated tuple item register"@)
    } else {
        ("truncated argc"@, "truncated call arg register"@)
    }
}

/// The capability bits an opcode needs.
pub open spec fn op_caps(op: Opcode) -> u32 {
    match op {
        Opcode::LoadF64 | Opcode::AddF64 | Opcode::SubF64 | Opcode::MulF64 | Opcode::DivF64 => CAP_F64_MATH,
        Opcode::LoadFx => CAP_FX_VALUES,
        Opcode::GateRead | Opcode::GateWrite | Opcode::PulseEmit => CAP_GATE_SURFACE,
        _ => 0,
    }
}

/// The operands found so far: jump targets, string uses and registers.
#[verifier::ext_equal]
pub struct RefsModel {
    pub jumps: Seq<u32>,
    pub sids: Seq<(u16, StringUse)>,
    pub regs: Seq<u16>,
}

/// Nothing found yet.
pub open spec fn no_refs() -> RefsModel {
    RefsModel { jumps: Seq::empty(), sids: Seq::empty(), regs: Seq::empty() }
}

/// The operands after reading a field of kind `k` at `p`.
pub open spec fn with_field(acc: RefsModel, k: FieldKind, code: Seq<u8>, p: int) -> RefsModel {
    match k {
        FieldKind::Reg => RefsModel { regs: acc.regs.push(le_u16_at(code, p)), ..acc },
        FieldKind::Sid(u) => RefsModel { sids: acc.sids.push((le_u16_at(code, p), u)), ..acc },
        FieldKind::Jump => RefsModel { jumps: acc.jumps.push(le_u32_at(code, p)), ..acc },
        _ => acc,
    }
}

/// Reads fields `k..` of `fs` from `p` on; the first one cut off gives its
/// message.
pub open spec fn fields_from(code: Seq<u8>, p: int, fs: Seq<(FieldKind, Seq<char>)>, k: int, acc: RefsModel) -> Result<
    (RefsModel, int),
    Seq<char>,
>
    decreases fs.len() - k,
{
    if k < 0 || k >= fs.len() {
        Ok((acc, p))
    } else if p + field_width(fs[k].0) > code.len() {
        Err(fs[k].1)
    } else {
        fields_from(code, p + field_width(fs[k].0), fs, k + 1, with_field(acc, fs[k].0, code, p))
    }
}

/// Reads `n` more registers from `p` on.
pub open spec fn items_from(code: Seq<u8>, p: int, n: int, msg: Seq<char>, acc: RefsModel) -> Result<
    (RefsModel, int),
    Seq<char>,
>
    decreases n,
{
    if n <= 0 {
        Ok((acc, p))
    } else if p + 2 > code.len() {
        Err(msg)
    } else {
        items_from(code, p + 2, n - 1, msg, with_field(acc, FieldKind::Reg, code, p))
    }
}

/// The operands of an instruction with opcode `op` whose operands start at
/// `p`, and where they end; or the message of the first one cut off.
pub open spec fn operands_of(code: Seq<u8>, p: int, op: Opcode) -> Result<(RefsModel, int), Seq<char>> {
    match fields_from(code, p, layout(op), 0, no_refs()) {
        Err(m) => Err(m),
        Ok((acc, q)) => match tail_of(op) {
            Tail::Nothing => Ok((acc, q)),
            Tail::ReturnSource => if code[p] == 0 {
                Ok((acc, q))
            } else if q + 2 > code.len() {
                Err("truncated return src register"@)
            } else {
                Ok((with_field(acc, FieldKind::Reg, code, q), q + 2))
            },
            t => if q + 2 > code.len() {
                Err(list_messages(op).0)
            } else if t is AtLeastTwoRegisters && le_u16_at(code, q) < 2 {
                Err("tuple literal arity must be at least 2"@)
            } else {
                items_from(code, q + 2, le_u16_at(code, q) as int, list_messages(op).1, acc)
            },
        },
    }
}

/// Operands found in an instruction.
#[derive(Debug)]
pub struct OperandRefs {
    pub jump_targets: Vec<u32>,
    pub string_refs: Vec<(u16, StringUse)>,
    pub registers: Vec<u16>,
}

impl OperandRefs {
    /// The operands as plain values.
    pub open spec fn model(&self) -> RefsModel {
        RefsModel { jumps: self.jump_targets@, sids: self.string_refs@, regs: self.registers@ }
    }
}

fn layout_exec(op: Opcode) -> (v: Vec<(FieldKind, &'static str)>)
    ensures
        v@.len() == layout(op).len(),
        forall|k: int| 0 <= k < v@.len() ==> (#[trigger] v@[k]).0 == layout(op)[k].0 && v@[k].1@ == layout(op)[k].1,
{
    let dst = (FieldKind::Reg, "truncated dst register");
    let v = match op {
        Opcode::LoadQ => vec![dst, (FieldKind::Byte, "truncated quad literal")],
        Opcode::LoadBool => vec![dst, (FieldKind::Byte, "truncated bool literal")],
        Opcode::LoadI32 => vec![dst, (FieldKind::Word, "truncated i32 literal")],
        Opcode::LoadU32 => vec![dst, (FieldKind::Word, "truncated u32 literal")],
        Opcode::LoadF64 => vec![dst, (FieldKind::Long, "truncated f64 literal")],
        Opcode::LoadFx => vec![dst, (FieldKind::Word, "truncated fx literal")],
        Opcode::MakeTuple => vec![(FieldKind::Reg, "truncated tuple dst register")],
        Opcode::TupleGet => vec![
            (FieldKind::Reg, "truncated tuple-get dst register"),
            (FieldKind::Reg, "truncated tuple-get src register"),
            (FieldKind::Half, "truncated tuple-get index"),
        ],
        Opcode::LoadVar => vec![dst, (FieldKind::Sid(StringUse::Variable), "truncated variable string id")],
        Opcode::StoreVar => vec![
            (FieldKind::Sid(StringUse::Variable), "truncated variable string id"),
            (FieldKind::Reg, "truncated src register"),
        ],
        Opcode::QNot | Opcode::BoolNot => vec![dst, (FieldKind::Reg, "truncated src register")],
        Opcode::Jmp => vec![(FieldKind::Jump, "truncated jump target")],
        Opcode::JmpIf => vec![
            (FieldKind::Reg, "truncated condition register"),
            (FieldKind::Jump, "truncated jump target"),
        ],
        Opcode::Call => vec![
            (FieldKind::Byte, "truncated call destination flag"),
            (FieldKind::Reg, "truncated call dst register"),
            (FieldKind::Sid(StringUse::CallTarget), "truncated callee string id"),
        ],
        Opcode::Assert => vec![(FieldKind::Reg, "truncated assert condition register")],
        Opcode::GateRead => vec![
            (FieldKind::Reg, "truncated gate dst register"),
            (FieldKind::Half, "truncated gate device id"),
            (FieldKind::Half, "truncated gate port"),
        ],
        Opcode::GateWrite => vec![
            (FieldKind::Half, "truncated gate device id"),
            (FieldKind::Half, "truncated gate port"),
            (FieldKind::Reg, "truncated gate src register"),
        ],
        Opcode::PulseEmit => vec![(FieldKind::Sid(StringUse::PulseSignal), "truncated signal string id")],
        Opcode::Ret => vec![(FieldKind::Byte, "truncated return flag")],
        _ => vec![dst, (FieldKind::Reg, "truncated lhs register"), (FieldKind::Reg, "truncated rhs register")],
    };
    v
}

/// `rep` holds one finding of kind `c` in `function` at `offset` with
/// message `msg`.
pub open spec fn rejects(rep: RejectReport, function: Seq<char>, c: VerificationCode, offset: usize, msg: Seq<char>) -> bool {
    &&& rep.diagnostics@.len() == 1
    &&& rep.diagnostics@[0].code == c
    &&& rep.diagnostics@[0].function matches Some(f) && f@ == function
    &&& rep.diagnostics@[0].offset == Some(offset)
    &&& rep.diagnostics@[0].message@ == msg
}

/// Reads the operands of an instruction with opcode `op`, from `cursor`
/// on, and moves `cursor` past them. A cut-off operand rejects the
/// function at `offset`.
pub fn decode_operands(function: &str, code: &[u8], cursor: &mut usize, offset: usize, op: Opcode) -> (r: Result<
    OperandRefs,
    RejectReport,
>)
    ensures
        match operands_of(code@, *old(cursor) as int, op) {
            Ok((m, q)) => (r matches Ok(refs) && refs.model() == m) && *final(cursor) == q,
            Err(msg) => r matches Err(rep) && rejects(rep, function@, VerificationCode::OperandOutOfBounds, offset, msg),
        },
{
    let ghost c = code@;
    let start = *cursor;
    let ghost p0 = start as int;
    let ghost lay = layout(op);
    let fs = layout_exec(op);
    let mut refs = OperandRefs { jump_targets: Vec::new(), string_refs: Vec::new(), registers: Vec::new() };
    assert(refs.model() == no_refs());
    let mut k: usize = 0;
    while k < fs.len()
        invariant
            c == code@,
            lay == layout(op),
            fs@.len() == lay.len(),
            forall|j: int| 0 <= j < fs@.len() ==> (#[trigger] fs@[j]).0 == lay[j].0 && fs@[j].1@ == lay[j].1,
            k <= fs@.len(),
            p0 == *old(cursor) as int,
            fields_from(c, p0, lay, 0, no_refs()) == fields_from(c, *cursor as int, lay, k as int, refs.model()),
        decreases fs@.len() - k,
    {
        let (kind, msg) = fs[k];
        let ghost before = refs.model();
        let ghost at = *cursor as int;
        match kind {
            FieldKind::Reg => match read_u16_le(code, cursor) {
                Ok(v) => refs.registers.push(v),
                Err(_) => return Err(reject_one(function, VerificationCode::OperandOutOfBounds, offset, msg)),
            },
            FieldKind::Byte => match read_u8(code, cursor) {
                Ok(_) => {},
                Err(_) => return Err(reject_one(function, VerificationCode::OperandOutOfBounds, offset, msg)),
            },
            FieldKind::Half => match read_u16_le(code, cursor) {
                Ok(_) => {},
                Err(_) => return Err(reject_one(function, VerificationCode::OperandOutOfBounds, offset, msg)),
            },
            FieldKind::Word => match read_u32_le(code, cursor) {
                Ok(_) => {},
                Err(_) => return Err(reject_one(function, VerificationCode::OperandOutOfBounds, offset, msg)),
            },
            FieldKind::Long => match crate::semcode_format::read_f64_bits_le(code, cursor) {
                Ok(_) => {},
                Err(_) => return Err(reject_one(function, VerificationCode::OperandOutOfBounds, offset, msg)),
            },
            FieldKind::Sid(u) => match read_u16_le(code, cursor) {
                Ok(v) => refs.string_refs.push((v, u)),
                Err(_) => return Err(reject_one(function, VerificationCode::OperandOutOfBounds, offset, msg)),
            },
            FieldKind::Jump => match read_u32_le(code, cursor) {
                Ok(v) => refs.jump_targets.push(v),
                Err(_) => return Err(reject_one(function, VerificationCode::OperandOutOfBounds, offset, msg)),
            },
        }
        assert(refs.model() == with_field(before, lay[k as int].0, c, at));
        k = k + 1;
    }
    let ghost q = *cursor as int;
    let ghost acc0 = refs.model();
    assert(fields_from(c, p0, lay, 0, no_refs()) == Ok::<(RefsModel, int), Seq<char>>((acc0, q)));
    match op {
        Opcode::Ret => {
            assert(p0 + 1 <= c.len()) by {
                reveal_with_fuel(fields_from, 2);
            }
            let flag = code[start];
            if flag != 0 {
                match read_u16_le(code, cursor) {
                    Ok(v) => refs.registers.push(v),
                    Err(_) => {
                        return Err(
                            reject_one(function, VerificationCode::OperandOutOfBounds, offset, "truncated return src register"),
                        );
                    },
                }
                assert(refs.model() == with_field(fields_from(c, p0, lay, 0, no_refs())->Ok_0.0, FieldKind::Reg, c, q));
            }
            Ok(refs)
        },
        Opcode::MakeTuple | Opcode::Call => {
            let (count_msg, item_msg) = match op {
                Opcode::MakeTuple => ("truncated tuple arity", "truncated tuple item register"),
                _ => ("truncated argc", "truncated call arg register"),
            };
            let n = match read_u16_le(code, cursor) {
                Ok(n) => n,
                Err(_) => return Err(reject_one(function, VerificationCode::OperandOutOfBounds, offset, count_msg)),
            };
            if op == Opcode::MakeTuple && n < 2 {
                return Err(
                    reject_one(
                        function,
                        VerificationCode::OperandOutOfBounds,
                        offset,
                        "tuple literal arity must be at least 2",
                    ),
                );
            }
            let mut j: u16 = 0;
            while j < n
                invariant
                    c == code@,
                    j <= n,
                    p0 == *old(cursor) as int,
                    item_msg@ == list_messages(op).1,
                    operands_of(c, p0, op) == items_from(c, *cursor as int, (n - j) as int, item_msg@, refs.model()),
                decreases n - j,
            {
                let ghost before = refs.model();
                let ghost at = *cursor as int;
                match read_u16_le(code, cursor) {
                    Ok(v) => refs.registers.push(v),
                    Err(_) => return Err(reject_one(function, VerificationCode::OperandOutOfBounds, offset, item_msg)),
                }
                assert(refs.model() == with_field(before, FieldKind::Reg, c, at));
                j = j + 1;
            }
            Ok(refs)
        },
        _ => Ok(refs),
    }
}

/// A finding about a function: its kind, offset and message.
pub type Finding = (VerificationCode, int, Seq<char>);

/// `rep` holds exactly the finding `f` about function `function`.
pub open spec fn rejects_with(rep: RejectReport, function: Seq<char>, f: Finding) -> bool {
    &&& 0 <= f.1 <= usize::MAX
    &&& rejects(rep, function, f.0, f.1 as usize, f.2)
}

/// The strings of a table from `pos` on, `n` more of them, after `acc`;
/// or where and why one could not be read.
pub open spec fn strings_from(code: Seq<u8>, pos: int, n: int, acc: Seq<Seq<char>>) -> Result<
    (Seq<Seq<char>>, int),
    (int, Seq<char>),
>
    decreases n,
{
    if n <= 0 {
        Ok((acc, pos))
    } else if pos + 2 > code.len() {
        Err((pos, "truncated string length"@))
    } else {
        let l = le_u16_at(code, pos) as int;
        let q = pos + 2;
        if q + l > code.len() || !vstd::utf8::valid_utf8(code.subrange(q, q + l)) {
            Err((q, "invalid function string entry"@))
        } else {
            strings_from(code, q + l, n - 1, acc.push(vstd::utf8::decode_utf8(code.subrange(q, q + l))))
        }
    }
}

fn read_string_entries(function: &str, code: &[u8], cursor: &mut usize, n: u16) -> (r: Result<Vec<String>, RejectReport>)
    ensures
        match strings_from(code@, *old(cursor) as int, n as int, Seq::empty()) {
            Ok((ss, e)) => (r matches Ok(v) && crate::runtime_core::names_of(v@) == ss) && *final(cursor) == e,
            Err((off, m)) => r matches Err(rep) && rejects_with(rep, function@, (VerificationCode::InvalidStringTable, off, m)),
        },
{
    let ghost c = code@;
    let mut out: Vec<String> = Vec::new();
    let mut k: u16 = 0;
    assert(crate::runtime_core::names_of(out@) =~= Seq::<Seq<char>>::empty());
    while k < n
        invariant
            c == code@,
            k <= n,
            strings_from(c, *old(cursor) as int, n as int, Seq::empty()) == strings_from(
                c,
                *cursor as int,
                (n - k) as int,
                crate::runtime_core::names_of(out@),
            ),
        decreases n - k,
    {
        let len = match read_u16_le(code, cursor) {
            Ok(l) => l,
            Err(_) => {
                return Err(reject_one(function, VerificationCode::InvalidStringTable, *cursor, "truncated string length"));
            },
        };
        let at = *cursor;
        let text = match crate::semcode_format::read_utf8(code, cursor, len as usize) {
            Ok(t) => t,
            Err(_) => {
                return Err(reject_one(function, VerificationCode::InvalidStringTable, *cursor, "invalid function string entry"));
            },
        };
        proof {
            let sub = c.subrange(at as int, at + len);
            vstd::utf8::encode_utf8_decode_utf8(text@);
            assert(vstd::utf8::decode_utf8(sub) == text@);
        }
        let ghost before = out@;
        out.push(text);
        assert(crate::runtime_core::names_of(out@) =~= crate::runtime_core::names_of(before).push(out@.last()@));
        k = k + 1;
    }
    Ok(out)
}

/// The four bytes `DBG0` that open a debug section.
pub open spec fn dbg_tag() -> Seq<u8> {
    seq![0x44u8, 0x42u8, 0x47u8, 0x30u8]
}

/// The offsets of `n` more debug entries from `pos` on, after `acc`; or
/// where and why one could not be read.
pub open spec fn debug_from(code: Seq<u8>, pos: int, n: int, acc: Seq<u32>) -> Result<(Seq<u32>, int), (int, Seq<char>)>
    decreases n,
{
    if n <= 0 {
        Ok((acc, pos))
    } else if pos + 4 > code.len() {
        Err((pos, "truncated debug pc"@))
    } else if pos + 8 > code.len() {
        Err((pos + 4, "truncated debug line"@))
    } else if pos + 10 > code.len() {
        Err((pos + 8, "truncated debug column"@))
    } else {
        debug_from(code, pos + 10, n - 1, acc.push(le_u32_at(code, pos)))
    }
}

/// The debug section at `pos`, if one starts there: the entry count, the
/// entries' offsets and where the section ends; or the finding it gives.
pub open spec fn debug_section(code: Seq<u8>, pos: int, quotas: RuntimeQuotas) -> Result<(int, Seq<u32>, int), Finding> {
    if pos + 4 <= code.len() && code.subrange(pos, pos + 4) == dbg_tag() {
        let p = pos + 4;
        if p + 2 > code.len() {
            Err((VerificationCode::InvalidDebugSection, p, "truncated debug section header"@))
        } else {
            let n = le_u16_at(code, p) as int;
            if n > quotas.max_trace_entries {
                Err(
                    (
                        VerificationCode::ResourceLimitExceeded,
                        p + 2,
                        "debug section uses "@ + crate::text::decimal(n as nat)
                            + " entries, exceeding the verified-local trace budget of "@ + crate::text::decimal(
                            quotas.max_trace_entries as nat,
                        ),
                    ),
                )
            } else {
                match debug_from(code, p + 2, n, Seq::empty()) {
                    Ok((pcs, e)) => Ok((n, pcs, e)),
                    Err((off, m)) => Err((VerificationCode::InvalidDebugSection, off, m)),
                }
            }
        }
    } else {
        Ok((0, Seq::empty(), pos))
    }
}

fn read_debug_section(function: &str, code: &[u8], cursor: &mut usize, quotas: &RuntimeQuotas) -> (r: Result<
    (usize, Vec<u32>),
    RejectReport,
>)
    ensures
        match debug_section(code@, *old(cursor) as int, *quotas) {
            Ok((n, pcs, e)) => (r matches Ok((m, v)) && m == n && v@ == pcs) && *final(cursor) == e,
            Err(f) => r matches Err(rep) && rejects_with(rep, function@, f),
        },
{
    let ghost c = code@;
    let start = *cursor;
    if !(start <= code.len() && code.len() - start >= 4 && code[start] == 0x44 && code[start + 1] == 0x42
        && code[start + 2] == 0x47 && code[start + 3] == 0x30) {
        proof {
            if start + 4 <= c.len() && c.subrange(start as int, start + 4) == dbg_tag() {
                assert(c[start as int] == c.subrange(start as int, start + 4)[0]);
                assert(c[start + 1] == c.subrange(start as int, start + 4)[1]);
                assert(c[start + 2] == c.subrange(start as int, start + 4)[2]);
                assert(c[start + 3] == c.subrange(start as int, start + 4)[3]);
            }
        }
        return Ok((0, Vec::new()));
    }
    assert(c.subrange(start as int, start + 4) =~= dbg_tag());
    *cursor = start + 4;
    let n = match read_u16_le(code, cursor) {
        Ok(n) => n,
        Err(_) => {
            return Err(
                reject_one(function, VerificationCode::InvalidDebugSection, *cursor, "truncated debug section header"),
            );
        },
    };
    if n as usize > quotas.max_trace_entries {
        let mut m = String::from_str("debug section uses ");
        crate::text::push_decimal(&mut m, n as u64);
        m.append(" entries, exceeding the verified-local trace budget of ");
        crate::text::push_decimal(&mut m, quotas.max_trace_entries as u64);
        return Err(reject_one(function, VerificationCode::ResourceLimitExceeded, *cursor, m.as_str()));
    }
    let mut pcs: Vec<u32> = Vec::new();
    let mut k: u16 = 0;
    while k < n
        invariant
            c == code@,
            k <= n,
            start == *old(cursor),
            start + 6 <= c.len(),
            c.subrange(start as int, start + 4) == dbg_tag(),
            le_u16_at(c, start + 4) == n,
            n <= quotas.max_trace_entries,
            debug_from(c, start + 6, n as int, Seq::empty()) == debug_from(c, *cursor as int, (n - k) as int, pcs@),
        decreases n - k,
    {
        let pc = match read_u32_le(code, cursor) {
            Ok(v) => v,
            Err(_) => return Err(reject_one(function, VerificationCode::InvalidDebugSection, *cursor, "truncated debug pc")),
        };
        match read_u32_le(code, cursor) {
            Ok(_) => {},
            Err(_) => return Err(reject_one(function, VerificationCode::InvalidDebugSection, *cursor, "truncated debug line")),
        }
        match read_u16_le(code, cursor) {
            Ok(_) => {},
            Err(_) => return Err(reject_one(function, VerificationCode::InvalidDebugSection, *cursor, "truncated debug column")),
        }
        pcs.push(pc);
        k = k + 1;
    }
    Ok((n as usize, pcs))
}

/// What the scan of an instruction stream found: where each instruction
/// starts, the jump targets, the string uses with the offset of their
/// instruction, the registers and the capability bits needed.
#[verifier::ext_equal]
pub struct ScanModel {
    pub starts: Seq<int>,
    pub jumps: Seq<u32>,
    pub sids: Seq<(int, u16, StringUse)>,
    pub regs: Seq<u16>,
    pub caps: u32,
}

/// Nothing scanned yet.
pub open spec fn empty_scan() -> ScanModel {
    ScanModel { starts: Seq::empty(), jumps: Seq::empty(), sids: Seq::empty(), regs: Seq::empty(), caps: 0 }
}

/// The string uses of an instruction at offset `off`.
pub open spec fn sids_at(off: int, sids: Seq<(u16, StringUse)>) -> Seq<(int, u16, StringUse)> {
    Seq::new(sids.len(), |k: int| (off, sids[k].0, sids[k].1))
}

/// The scan after an instruction with opcode `op` at offset `off`.
pub open spec fn scan_step(acc: ScanModel, off: int, op: Opcode, refs: RefsModel) -> ScanModel {
    ScanModel {
        starts: acc.starts.push(off),
        jumps: acc.jumps + refs.jumps,
        sids: acc.sids + sids_at(off, refs.sids),
        regs: acc.regs + refs.regs,
        caps: acc.caps | op_caps(op),
    }
}

/// Scans the instructions from `cur` on, in a stream that starts at `s`;
/// the first unknown opcode or cut-off operand is the finding.
pub open spec fn scan_from(code: Seq<u8>, s: int, cur: int, acc: ScanModel) -> Result<ScanModel, Finding>
    decreases code.len() - cur,
{
    if cur >= code.len() || cur < s {
        Ok(acc)
    } else {
        let off = cur - s;
        match opcode_of_byte(code[cur]) {
            None => Err(
                (
                    VerificationCode::UnknownOpcode,
                    off,
                    crate::semcode_format::error_text(crate::semcode_format::SemcodeFormatError::UnknownOpcode(code[cur])),
                ),
            ),
            Some(op) => match operands_of(code, cur + 1, op) {
                Err(m) => Err((VerificationCode::OperandOutOfBounds, off, m)),
                Ok((refs, q)) => if q <= cur || q > code.len() {
                    Ok(acc)
                } else {
                    scan_from(code, s, q, scan_step(acc, off, op, refs))
                },
            },
        }
    }
}

proof fn lemma_fields_advance(code: Seq<u8>, p: int, fs: Seq<(FieldKind, Seq<char>)>, k: int, acc: RefsModel)
    requires
        fields_from(code, p, fs, k, acc) is Ok,
        p <= code.len(),
    ensures
        p <= fields_from(code, p, fs, k, acc)->Ok_0.1 <= code.len(),
    decreases fs.len() - k,
{
    if 0 <= k < fs.len() && p + field_width(fs[k].0) <= code.len() {
        lemma_fields_advance(code, p + field_width(fs[k].0), fs, k + 1, with_field(acc, fs[k].0, code, p));
    }
}

proof fn lemma_items_advance(code: Seq<u8>, p: int, n: int, msg: Seq<char>, acc: RefsModel)
    requires
        items_from(code, p, n, msg, acc) is Ok,
        p <= code.len(),
    ensures
        p <= items_from(code, p, n, msg, acc)->Ok_0.1 <= code.len(),
    decreases n,
{
    if n > 0 && p + 2 <= code.len() {
        lemma_items_advance(code, p + 2, n - 1, msg, with_field(acc, FieldKind::Reg, code, p));
    }
}

proof fn lemma_operands_advance(code: Seq<u8>, p: int, op: Opcode)
    requires
        operands_of(code, p, op) is Ok,
        p <= code.len(),
    ensures
        p <= operands_of(code, p, op)->Ok_0.1 <= code.len(),
{
    lemma_fields_advance(code, p, layout(op), 0, no_refs());
    let q = fields_from(code, p, layout(op), 0, no_refs())->Ok_0.1;
    let acc = fields_from(code, p, layout(op), 0, no_refs())->Ok_0.0;
    if q + 2 <= code.len() && items_from(code, q + 2, le_u16_at(code, q) as int, list_messages(op).1, acc) is Ok {
        lemma_items_advance(code, q + 2, le_u16_at(code, q) as int, list_messages(op).1, acc);
    }
}

/// What the scan of a stream found, as values.
#[derive(Debug)]
pub struct Scan {
    pub starts: Vec<usize>,
    pub jumps: Vec<u32>,
    pub sids: Vec<(usize, u16, StringUse)>,
    pub regs: Vec<u16>,
    pub caps: u32,
}

impl Scan {
    /// The scan as plain values.
    pub open spec fn model(&self) -> ScanModel {
        ScanModel {
            starts: Seq::new(self.starts@.len(), |k: int| self.starts@[k] as int),
            jumps: self.jumps@,
            sids: Seq::new(self.sids@.len(), |k: int| (self.sids@[k].0 as int, self.sids@[k].1, self.sids@[k].2)),
            regs: self.regs@,
            caps: self.caps,
        }
    }
}

fn append_u32s(dst: &mut Vec<u32>, src: &Vec<u32>)
    ensures
        final(dst)@ == old(dst)@ + src@,
{
    let mut j: usize = 0;
    while j < src.len()
        invariant
            j <= src@.len(),
            dst@ == old(dst)@ + src@.take(j as int),
        decreases src@.len() - j,
    {
        dst.push(src[j]);
        assert(src@.take(j as int + 1) =~= src@.take(j as int).push(src@[j as int]));
        j = j + 1;
    }
    assert(src@.take(src@.len() as int) =~= src@);
}

fn append_u16s(dst: &mut Vec<u16>, src: &Vec<u16>)
    ensures
        final(dst)@ == old(dst)@ + src@,
{
    let mut j: usize = 0;
    while j < src.len()
        invariant
            j <= src@.len(),
            dst@ == old(dst)@ + src@.take(j as int),
        decreases src@.len() - j,
    {
        dst.push(src[j]);
        assert(src@.take(j as int + 1) =~= src@.take(j as int).push(src@[j as int]));
        j = j + 1;
    }
    assert(src@.take(src@.len() as int) =~= src@);
}

fn append_uses(dst: &mut Vec<(usize, u16, StringUse)>, offset: usize, src: &Vec<(u16, StringUse)>)
    ensures
        final(dst)@.len() == old(dst)@.len() + src@.len(),
        forall|k: int| 0 <= k < old(dst)@.len() ==> #[trigger] final(dst)@[k] == old(dst)@[k],
        forall|k: int| 0 <= k < src@.len() ==> #[trigger] final(dst)@[old(dst)@.len() + k] == (offset, src@[k].0, src@[k].1),
{
    let mut j: usize = 0;
    while j < src.len()
        invariant
            j <= src@.len(),
            dst@.len() == old(dst)@.len() + j,
            forall|k: int| 0 <= k < old(dst)@.len() ==> #[trigger] dst@[k] == old(dst)@[k],
            forall|k: int| 0 <= k < j ==> #[trigger] dst@[old(dst)@.len() + k] == (offset, src@[k].0, src@[k].1),
        decreases src@.len() - j,
    {
        let (sid, u) = src[j];
        dst.push((offset, sid, u));
        j = j + 1;
    }
}

fn scan_instructions(function: &str, code: &[u8], start: usize) -> (r: Result<Scan, RejectReport>)
    requires
        start <= code@.len(),
    ensures
        match scan_from(code@, start as int, start as int, empty_scan()) {
            Ok(m) => r matches Ok(sc) && sc.model() == m,
            Err(f) => r matches Err(rep) && rejects_with(rep, function@, f),
        },
{
    let ghost c = code@;
    let mut sc = Scan { starts: Vec::new(), jumps: Vec::new(), sids: Vec::new(), regs: Vec::new(), caps: 0 };
    assert(sc.model() =~= empty_scan());
    let mut cursor = start;
    while cursor < code.len()
        invariant
            c == code@,
            start <= cursor <= c.len(),
            scan_from(c, start as int, start as int, empty_scan()) == scan_from(c, start as int, cursor as int, sc.model()),
        decreases c.len() - cursor,
    {
        let offset = cursor - start;
        let b = code[cursor];
        let op = match Opcode::from_byte(b) {
            Ok(op) => op,
            Err(e) => {
                let m = e.message();
                return Err(reject_one(function, VerificationCode::UnknownOpcode, offset, m.as_str()));
            },
        };
        let mut next = cursor + 1;
        let refs = match decode_operands(function, code, &mut next, offset, op) {
            Ok(refs) => refs,
            Err(rep) => return Err(rep),
        };
        proof {
            lemma_operands_advance(c, cursor + 1, op);
        }
        let ghost before = sc.model();
        sc.starts.push(offset);
        append_u32s(&mut sc.jumps, &refs.jump_targets);
        append_uses(&mut sc.sids, offset, &refs.string_refs);
        append_u16s(&mut sc.regs, &refs.registers);
        sc.caps = sc.caps | op_caps_exec(op);
        proof {
            let after = scan_step(before, offset as int, op, refs.model());
            assert(sc.model().starts =~= after.starts);
            assert(sc.model().jumps =~= after.jumps);
            assert forall|k: int| 0 <= k < after.sids.len() implies sc.model().sids[k] == after.sids[k] by {
                if k >= before.sids.len() {
                    let i = k - before.sids.len();
                    assert(sc.sids@[before.sids.len() + i] == (offset, refs.string_refs@[i].0, refs.string_refs@[i].1));
                }
            }
            assert(sc.model().sids =~= after.sids);
            assert(sc.model().regs =~= after.regs);
        }
        cursor = next;
    }
    Ok(sc)
}

fn op_caps_exec(op: Opcode) -> (c: u32)
    ensures
        c == op_caps(op),
{
    match op {
        Opcode::LoadF64 | Opcode::AddF64 | Opcode::SubF64 | Opcode::MulF64 | Opcode::DivF64 => CAP_F64_MATH,
        Opcode::LoadFx => CAP_FX_VALUES,
        Opcode::GateRead | Opcode::GateWrite | Opcode::PulseEmit => CAP_GATE_SURFACE,
        _ => 0,
    }
}

/// What `String::from_utf8_lossy` makes of `bytes`.
pub uninterp spec fn lossy_utf8(bytes: Seq<u8>) -> Seq<char>;

/// Decodes `bytes` with `String::from_utf8_lossy`. Its documentation says
/// that invalid sequences become U+FFFD and that valid UTF-8 is kept as it
/// is; the text is named by `lossy_utf8` and, for valid input, is the
/// decoding of the bytes. What the replacement gives for invalid input is
/// not stated beyond that name.
#[verifier::external_body]
fn lossy_text(bytes: &[u8]) -> (s: String)
    ensures
        s@ == lossy_utf8(bytes@),
        vstd::utf8::valid_utf8(bytes@) ==> s@ == vstd::utf8::decode_utf8(bytes@),
{
    String::from_utf8_lossy(bytes).to_string()
}

/// The first debug offset from `k` on that lies past the stream.
pub open spec fn first_past(pcs: Seq<u32>, len: int, k: int) -> Option<u32>
    decreases pcs.len() - k,
{
    if k < 0 || k >= pcs.len() {
        None
    } else if pcs[k] >= len {
        Some(pcs[k])
    } else {
        first_past(pcs, len, k + 1)
    }
}

/// The finding for the first bad jump target from `k` on: past the stream,
/// or not at the start of an instruction.
pub open spec fn first_bad_target(jumps: Seq<u32>, starts: Seq<int>, len: int, k: int) -> Option<Finding>
    decreases jumps.len() - k,
{
    if k < 0 || k >= jumps.len() {
        None
    } else if jumps[k] >= len {
        Some((VerificationCode::InvalidJumpTarget, jumps[k] as int, "jump target points past the instruction stream"@))
    } else if !starts.contains(jumps[k] as int) {
        Some(
            (
                VerificationCode::InvalidJumpTarget,
                jumps[k] as int,
                "jump target does not land on an instruction boundary"@,
            ),
        )
    } else {
        first_bad_target(jumps, starts, len, k + 1)
    }
}

/// The finding for the first string use from `k` on whose index is past
/// the table's `count` entries.
pub open spec fn first_bad_use(sids: Seq<(int, u16, StringUse)>, count: int, k: int) -> Option<Finding>
    decreases sids.len() - k,
{
    if k < 0 || k >= sids.len() {
        None
    } else if sids[k].1 >= count {
        Some(
            (
                VerificationCode::InvalidStringReference,
                sids[k].0,
                use_text(sids[k].2) + " uses missing string id s"@ + crate::text::decimal(sids[k].1 as nat),
            ),
        )
    } else {
        first_bad_use(sids, count, k + 1)
    }
}

/// The calls of a function: the offset of each call and the callee's name.
pub open spec fn call_targets(sids: Seq<(int, u16, StringUse)>, strings: Seq<Seq<char>>) -> Seq<(int, Seq<char>)>
    decreases sids.len(),
{
    if sids.len() == 0 {
        Seq::empty()
    } else {
        let rest = call_targets(sids.drop_last(), strings);
        if sids.last().2 is CallTarget {
            rest.push((sids.last().0, strings[sids.last().1 as int]))
        } else {
            rest
        }
    }
}

/// The highest register of a non-empty list.
pub open spec fn max_reg(regs: Seq<u16>) -> int
    decreases regs.len(),
{
    if regs.len() <= 1 {
        if regs.len() == 1 {
            regs[0] as int
        } else {
            0
        }
    } else {
        let m = max_reg(regs.drop_last());
        if regs.last() > m {
            regs.last() as int
        } else {
            m
        }
    }
}

/// What the checker records of an accepted function besides its name and
/// size: the number of strings and debug entries, and its calls.
#[verifier::ext_equal]
pub struct FunctionFacts {
    pub string_count: int,
    pub debug_count: int,
    pub calls: Seq<(int, Seq<char>)>,
}

/// The message for capability bits a function needs and the header lacks.
pub open spec fn caps_message(missing: u32, magic: Seq<u8>, caps: u32) -> Seq<char> {
    "function requires capability bits 0x"@ + crate::text::zero_padded(crate::text::hex_text(missing as nat), 8)
        + ", but header '"@ + lossy_utf8(magic) + "' provides only 0x"@ + crate::text::zero_padded(
        crate::text::hex_text(caps as nat),
        8,
    )
}

/// The checks made once a function's stream has been scanned: debug
/// offsets, capabilities, jump targets, string uses and registers, in that
/// order.
pub open spec fn final_checks(
    instr_len: int,
    strings: Seq<Seq<char>>,
    n_dbg: int,
    pcs: Seq<u32>,
    sc: ScanModel,
    caps: u32,
    magic: Seq<u8>,
    q: RuntimeQuotas,
) -> Result<FunctionFacts, Finding> {
    match first_past(pcs, instr_len, 0) {
        Some(pc) => Err(
            (VerificationCode::InvalidDebugSection, pc as int, "debug symbol pc points past the instruction stream"@),
        ),
        None => {
            let used = sc.caps | (if n_dbg > 0 {
                CAP_DEBUG_SYMBOLS
            } else {
                0u32
            });
            let missing = used & !caps;
            if missing != 0 {
                Err((VerificationCode::CapabilityViolation, 0, caps_message(missing, magic, caps)))
            } else {
                match first_bad_target(sc.jumps, sc.starts, instr_len, 0) {
                    Some(f) => Err(f),
                    None => match first_bad_use(sc.sids, strings.len() as int, 0) {
                        Some(f) => Err(f),
                        None => if sc.regs.len() > 0 && max_reg(sc.regs) + 1 > q.max_registers {
                            Err(
                                (
                                    VerificationCode::InvalidRegisterReference,
                                    max_reg(sc.regs),
                                    "function references register r"@ + crate::text::decimal(max_reg(sc.regs) as nat)
                                        + ", exceeding the verified-local register budget of "@
                                        + crate::text::decimal(q.max_registers as nat),
                                ),
                            )
                        } else {
                            Ok(
                                FunctionFacts {
                                    string_count: strings.len() as int,
                                    debug_count: n_dbg,
                                    calls: call_targets(sc.sids, strings),
                                },
                            )
                        },
                    },
                }
            }
        },
    }
}

/// All checks of one function's code, in the order they are made: the
/// string table, the debug section, the instruction stream, then the
/// final checks.
#[verifier::opaque]
pub open spec fn check_function(code: Seq<u8>, caps: u32, magic: Seq<u8>, q: RuntimeQuotas) -> Result<
    FunctionFacts,
    Finding,
> {
    if code.len() < 2 {
        Err((VerificationCode::InvalidStringTable, 0, "missing string table header"@))
    } else {
        let count = le_u16_at(code, 0) as int;
        if count > q.max_symbol_table {
            Err(
                (
                    VerificationCode::ResourceLimitExceeded,
                    0,
                    "function string table uses "@ + crate::text::decimal(count as nat)
                        + " entries, exceeding the verified-local symbol budget of "@ + crate::text::decimal(
                        q.max_symbol_table as nat,
                    ),
                ),
            )
        } else {
            match strings_from(code, 2, count, Seq::empty()) {
                Err((off, m)) => Err((VerificationCode::InvalidStringTable, off, m)),
                Ok((strings, p)) => match debug_section(code, p, q) {
                    Err(f) => Err(f),
                    Ok((n_dbg, pcs, s)) => match scan_from(code, s, s, empty_scan()) {
                        Err(f) => Err(f),
                        Ok(sc) => final_checks(code.len() - s, strings, n_dbg, pcs, sc, caps, magic, q),
                    },
                },
            }
        }
    }
}

fn first_past_exec(pcs: &Vec<u32>, len: usize) -> (r: Option<u32>)
    ensures
        r == first_past(pcs@, len as int, 0),
{
    let mut k: usize = 0;
    while k < pcs.len()
        invariant
            k <= pcs@.len(),
            first_past(pcs@, len as int, 0) == first_past(pcs@, len as int, k as int),
        decreases pcs@.len() - k,
    {
        if pcs[k] as usize >= len {
            return Some(pcs[k]);
        }
        k = k + 1;
    }
    None
}

/// The offsets as plain integers.
pub open spec fn starts_model(starts: Seq<usize>) -> Seq<int> {
    Seq::new(starts.len(), |k: int| starts[k] as int)
}

fn has_start(starts: &Vec<usize>, t: usize) -> (r: bool)
    ensures
        r == starts_model(starts@).contains(t as int),
{
    let mut k: usize = 0;
    while k < starts.len()
        invariant
            k <= starts@.len(),
            forall|j: int| 0 <= j < k ==> starts@[j] != t,
        decreases starts@.len() - k,
    {
        if starts[k] == t {
            assert(starts_model(starts@)[k as int] == t as int);
            return true;
        }
        k = k + 1;
    }
    false
}

fn check_targets(function: &str, jumps: &Vec<u32>, starts: &Vec<usize>, len: usize) -> (r: Result<(), RejectReport>)
    ensures
        match first_bad_target(jumps@, starts_model(starts@), len as int, 0) {
            None => r is Ok,
            Some(f) => r matches Err(rep) && rejects_with(rep, function@, f),
        },
{
    let mut k: usize = 0;
    while k < jumps.len()
        invariant
            k <= jumps@.len(),
            first_bad_target(jumps@, starts_model(starts@), len as int, 0) == first_bad_target(
                jumps@,
                starts_model(starts@),
                len as int,
                k as int,
            ),
        decreases jumps@.len() - k,
    {
        let t = jumps[k] as usize;
        if t >= len {
            return Err(
                reject_one(
                    function,
                    VerificationCode::InvalidJumpTarget,
                    t,
                    "jump target points past the instruction stream",
                ),
            );
        }
        if !has_start(starts, t) {
            return Err(
                reject_one(
                    function,
                    VerificationCode::InvalidJumpTarget,
                    t,
                    "jump target does not land on an instruction boundary",
                ),
            );
        }
        k = k + 1;
    }
    Ok(())
}

fn use_text_exec(u: StringUse) -> (s: &'static str)
    ensures
        s@ == use_text(u),
{
    match u {
        StringUse::Variable => "variable reference",
        StringUse::CallTarget => "call target",
        StringUse::PulseSignal => "pulse signal",
    }
}

/// The string uses as plain values.
pub open spec fn uses_model(sids: Seq<(usize, u16, StringUse)>) -> Seq<(int, u16, StringUse)> {
    Seq::new(sids.len(), |k: int| (sids[k].0 as int, sids[k].1, sids[k].2))
}

fn check_uses(function: &str, sids: &Vec<(usize, u16, StringUse)>, count: usize) -> (r: Result<(), RejectReport>)
    ensures
        match first_bad_use(uses_model(sids@), count as int, 0) {
            None => r is Ok,
            Some(f) => r matches Err(rep) && rejects_with(rep, function@, f),
        },
{
    let mut k: usize = 0;
    while k < sids.len()
        invariant
            k <= sids@.len(),
            first_bad_use(uses_model(sids@), count as int, 0) == first_bad_use(uses_model(sids@), count as int, k as int),
        decreases sids@.len() - k,
    {
        let (off, sid, u) = sids[k];
        if sid as usize >= count {
            let mut m = String::from_str(use_text_exec(u));
            m.append(" uses missing string id s");
            crate::text::push_decimal(&mut m, sid as u64);
            return Err(reject_one(function, VerificationCode::InvalidStringReference, off, m.as_str()));
        }
        k = k + 1;
    }
    Ok(())
}

fn max_register(regs: &Vec<u16>) -> (m: u16)
    requires
        regs@.len() > 0,
    ensures
        m == max_reg(regs@),
{
    let mut m = regs[0];
    let mut k: usize = 1;
    assert(regs@.take(1) =~= seq![regs@[0]]);
    while k < regs.len()
        invariant
            1 <= k <= regs@.len(),
            m == max_reg(regs@.take(k as int)),
        decreases regs@.len() - k,
    {
        assert(regs@.take(k as int + 1).drop_last() =~= regs@.take(k as int));
        if regs[k] > m {
            m = regs[k];
        }
        k = k + 1;
    }
    assert(regs@.take(regs@.len() as int) =~= regs@);
    m
}

proof fn lemma_no_bad_use(sids: Seq<(int, u16, StringUse)>, count: int, k: int)
    requires
        0 <= k,
        first_bad_use(sids, count, k) is None,
    ensures
        forall|j: int| k <= j < sids.len() ==> (#[trigger] sids[j]).1 < count,
    decreases sids.len() - k,
{
    if k < sids.len() {
        lemma_no_bad_use(sids, count, k + 1);
    }
}

/// Calls as plain values.
pub open spec fn calls_model(v: Seq<(usize, String)>) -> Seq<(int, Seq<char>)> {
    Seq::new(v.len(), |k: int| (v[k].0 as int, v[k].1@))
}

fn collect_calls(sids: &Vec<(usize, u16, StringUse)>, strings: &Vec<String>) -> (v: Vec<(usize, String)>)
    requires
        forall|j: int| 0 <= j < sids@.len() ==> ((#[trigger] sids@[j]).1 as int) < strings@.len(),
    ensures
        calls_model(v@) == call_targets(uses_model(sids@), crate::runtime_core::names_of(strings@)),
{
    let ghost names = crate::runtime_core::names_of(strings@);
    let mut v: Vec<(usize, String)> = Vec::new();
    let mut k: usize = 0;
    assert(uses_model(sids@).take(0) =~= Seq::<(int, u16, StringUse)>::empty());
    assert(calls_model(v@) =~= Seq::<(int, Seq<char>)>::empty());
    while k < sids.len()
        invariant
            k <= sids@.len(),
            names == crate::runtime_core::names_of(strings@),
            forall|j: int| 0 <= j < sids@.len() ==> ((#[trigger] sids@[j]).1 as int) < strings@.len(),
            calls_model(v@) == call_targets(uses_model(sids@).take(k as int), names),
        decreases sids@.len() - k,
    {
        let ghost tk = uses_model(sids@).take(k as int + 1);
        assert(tk.drop_last() =~= uses_model(sids@).take(k as int));
        assert(tk.last() == uses_model(sids@)[k as int]);
        let (off, sid, u) = sids[k];
        if u == StringUse::CallTarget {
            let ghost before = v@;
            v.push((off, strings[sid as usize].clone()));
            assert(calls_model(v@) =~= calls_model(before).push((off as int, names[sid as int])));
        }
        k = k + 1;
    }
    assert(uses_model(sids@).take(sids@.len() as int) =~= uses_model(sids@));
    v
}

proof fn lemma_strings_end(code: Seq<u8>, pos: int, n: int, acc: Seq<Seq<char>>)
    requires
        pos <= code.len(),
        strings_from(code, pos, n, acc) is Ok,
    ensures
        pos <= strings_from(code, pos, n, acc)->Ok_0.1 <= code.len(),
    decreases n,
{
    if n > 0 && pos + 2 <= code.len() {
        let l = le_u16_at(code, pos) as int;
        if pos + 2 + l <= code.len() && vstd::utf8::valid_utf8(code.subrange(pos + 2, pos + 2 + l)) {
            lemma_strings_end(
                code,
                pos + 2 + l,
                n - 1,
                acc.push(vstd::utf8::decode_utf8(code.subrange(pos + 2, pos + 2 + l))),
            );
        }
    }
}

proof fn lemma_debug_end(code: Seq<u8>, pos: int, n: int, acc: Seq<u32>)
    requires
        pos <= code.len(),
        debug_from(code, pos, n, acc) is Ok,
    ensures
        pos <= debug_from(code, pos, n, acc)->Ok_0.1 <= code.len(),
    decreases n,
{
    if n > 0 && pos + 10 <= code.len() {
        lemma_debug_end(code, pos + 10, n - 1, acc.push(le_u32_at(code, pos)));
    }
}

/// A function that passed its checks: what is recorded of it, and its
/// calls with their offsets.
#[derive(Debug)]
pub struct PendingFunction {
    pub verified: VerifiedFunction,
    pub call_targets: Vec<(usize, String)>,
}

/// Checks the code of function `name` against the header it comes with and
/// the quotas; the first problem found rejects it.
pub fn verify_function_code(
    name: &str,
    code: &[u8],
    header: &crate::semcode_format::SemcodeHeaderSpec,
    quotas: &RuntimeQuotas,
) -> (r: Result<PendingFunction, RejectReport>)
    ensures
        match check_function(code@, header.capabilities, header.magic@, *quotas) {
            Ok(f) => r matches Ok(p) && p.verified.name@ == name@ && p.verified.code_len == code@.len()
                && p.verified.string_count == f.string_count && p.verified.debug_symbol_count == f.debug_count
                && calls_model(p.call_targets@) == f.calls,
            Err(x) => r matches Err(rep) && rejects_with(rep, name@, x),
        },
{
    reveal(check_function);
    let ghost c = code@;
    let mut cursor: usize = 0;
    let count = match read_u16_le(code, &mut cursor) {
        Ok(n) => n,
        Err(_) => {
            return Err(reject_one(name, VerificationCode::InvalidStringTable, 0, "missing string table header"));
        },
    };
    if count as usize > quotas.max_symbol_table {
        let mut m = String::from_str("function string table uses ");
        crate::text::push_decimal(&mut m, count as u64);
        m.append(" entries, exceeding the verified-local symbol budget of ");
        crate::text::push_decimal(&mut m, quotas.max_symbol_table as u64);
        return Err(reject_one(name, VerificationCode::ResourceLimitExceeded, 0, m.as_str()));
    }
    let strings = match read_string_entries(name, code, &mut cursor, count) {
        Ok(v) => v,
        Err(rep) => return Err(rep),
    };
    proof {
        lemma_strings_end(c, 2, count as int, Seq::empty());
    }
    let ghost p = cursor as int;
    let (n_dbg, pcs) = match read_debug_section(name, code, &mut cursor, quotas) {
        Ok(d) => d,
        Err(rep) => return Err(rep),
    };
    proof {
        if p + 4 <= c.len() && c.subrange(p, p + 4) == dbg_tag() {
            lemma_debug_end(c, p + 6, le_u16_at(c, p + 4) as int, Seq::empty());
        }
    }
    let instr_start = cursor;
    let sc = match scan_instructions(name, code, instr_start) {
        Ok(sc) => sc,
        Err(rep) => return Err(rep),
    };
    let instr_len = code.len() - instr_start;
    match first_past_exec(&pcs, instr_len) {
        Some(pc) => {
            return Err(
                reject_one(
                    name,
                    VerificationCode::InvalidDebugSection,
                    pc as usize,
                    "debug symbol pc points past the instruction stream",
                ),
            );
        },
        None => {},
    }
    let used = sc.caps | (if n_dbg > 0 {
        CAP_DEBUG_SYMBOLS
    } else {
        0u32
    });
    let missing = used & !header.capabilities;
    if missing != 0 {
        let mut m = String::from_str("function requires capability bits 0x");
        crate::text::push_hex_padded(&mut m, missing as u64, 8);
        m.append(", but header '");
        let shown = lossy_text(&header.magic);
        m.append(shown.as_str());
        m.append("' provides only 0x");
        crate::text::push_hex_padded(&mut m, header.capabilities as u64, 8);
        assert(m@ =~= caps_message(missing, header.magic@, header.capabilities));
        return Err(reject_one(name, VerificationCode::CapabilityViolation, 0, m.as_str()));
    }
    match check_targets(name, &sc.jumps, &sc.starts, instr_len) {
        Ok(()) => {},
        Err(rep) => return Err(rep),
    }
    match check_uses(name, &sc.sids, strings.len()) {
        Ok(()) => {},
        Err(rep) => return Err(rep),
    }
    if sc.regs.len() > 0 {
        let top = max_register(&sc.regs);
        if top as usize + 1 > quotas.max_registers {
            let mut m = String::from_str("function references register r");
            crate::text::push_decimal(&mut m, top as u64);
            m.append(", exceeding the verified-local register budget of ");
            crate::text::push_decimal(&mut m, quotas.max_registers as u64);
            return Err(reject_one(name, VerificationCode::InvalidRegisterReference, top as usize, m.as_str()));
        }
    }
    proof {
        lemma_no_bad_use(uses_model(sc.sids@), strings@.len() as int, 0);
        assert forall|j: int| 0 <= j < sc.sids@.len() implies ((#[trigger] sc.sids@[j]).1 as int) < strings@.len() by {
            assert(uses_model(sc.sids@)[j].1 == sc.sids@[j].1);
        }
        assert(sc.model().starts == starts_model(sc.starts@));
        assert(sc.model().sids == uses_model(sc.sids@));
    }
    let calls = collect_calls(&sc.sids, &strings);
    Ok(
        PendingFunction {
            verified: VerifiedFunction {
                name: name.to_string(),
                code_len: code.len(),
                string_count: strings.len(),
                debug_symbol_count: n_dbg,
            },
            call_targets: calls,
        },
    )
}

/// A finding as plain values.
#[verifier::ext_equal]
pub struct DiagModel {
    pub code: VerificationCode,
    pub function: Option<Seq<char>>,
    pub offset: Option<int>,
    pub message: Seq<char>,
}

/// A finding seen as plain values.
pub open spec fn diag_model(d: VerificationDiagnostic) -> DiagModel {
    DiagModel {
        code: d.code,
        function: match d.function {
            Some(f) => Some(f@),
            None => None,
        },
        offset: match d.offset {
            Some(o) => Some(o as int),
            None => None,
        },
        message: d.message@,
    }
}

/// Findings seen as plain values.
pub open spec fn diags_model(ds: Seq<VerificationDiagnostic>) -> Seq<DiagModel> {
    Seq::new(ds.len(), |k: int| diag_model(ds[k]))
}

/// An accepted function: its name, its code's length and what was found.
pub type FunctionEntry = (Seq<char>, int, FunctionFacts);

/// The findings and the accepted functions of an image so far.
#[verifier::ext_equal]
pub struct ProgramScan {
    pub diags: Seq<DiagModel>,
    pub funcs: Seq<FunctionEntry>,
}

/// `acc` with one more finding.
pub open spec fn with_diag(acc: ProgramScan, code: VerificationCode, function: Option<Seq<char>>, offset: Option<int>, message: Seq<char>) -> ProgramScan {
    ProgramScan { diags: acc.diags.push(DiagModel { code, function, offset, message }), funcs: acc.funcs }
}

/// Reads the functions of an image from `pos` on and checks each. A broken
/// function header is a finding that ends the reading; a rejected function
/// is a finding and the reading goes on.
pub open spec fn program_scan(bytes: Seq<u8>, pos: int, caps: u32, magic: Seq<u8>, q: RuntimeQuotas, acc: ProgramScan) -> ProgramScan
    decreases bytes.len() - pos,
{
    if pos >= bytes.len() || pos < 0 {
        acc
    } else if pos + 2 > bytes.len() {
        with_diag(acc, VerificationCode::TruncatedFunction, None, Some(pos), "truncated function header while reading name length"@)
    } else {
        let nl = le_u16_at(bytes, pos) as int;
        let p = pos + 2;
        if nl == 0 {
            with_diag(acc, VerificationCode::InvalidFunctionName, None, Some(pos), "function name must not be empty"@)
        } else if p + nl > bytes.len() || !vstd::utf8::valid_utf8(bytes.subrange(p, p + nl)) {
            with_diag(
                acc,
                VerificationCode::InvalidFunctionName,
                None,
                Some(pos),
                "function name is truncated or invalid utf-8"@,
            )
        } else {
            let name = vstd::utf8::decode_utf8(bytes.subrange(p, p + nl));
            let p2 = p + nl;
            if p2 + 4 > bytes.len() {
                with_diag(
                    acc,
                    VerificationCode::TruncatedFunction,
                    Some(name),
                    Some(pos),
                    "truncated function header while reading code length"@,
                )
            } else {
                let cl = le_u32_at(bytes, p2) as int;
                let p3 = p2 + 4;
                if p3 + cl > bytes.len() {
                    with_diag(
                        acc,
                        VerificationCode::TruncatedFunction,
                        Some(name),
                        Some(p3),
                        "function code extends past end of file"@,
                    )
                } else {
                    let next = match check_function(bytes.subrange(p3, p3 + cl), caps, magic, q) {
                        Ok(f) => ProgramScan { diags: acc.diags, funcs: acc.funcs.push((name, cl, f)) },
                        Err(x) => with_diag(acc, x.0, Some(name), Some(x.1), x.2),
                    };
                    program_scan(bytes, p3 + cl, caps, magic, q, next)
                }
            }
        }
    }
}

/// The names of the accepted functions.
pub open spec fn entry_names(fs: Seq<FunctionEntry>) -> Seq<Seq<char>> {
    Seq::new(fs.len(), |k: int| fs[k].0)
}

/// The findings for the calls of function `fname` from call `j` on, after
/// `acc`: a callee that is neither an accepted function nor a builtin, and
/// a builtin whose capability the header lacks.
pub open spec fn call_diags(fname: Seq<char>, calls: Seq<(int, Seq<char>)>, names: Seq<Seq<char>>, caps: u32, j: int, acc: Seq<DiagModel>) -> Seq<DiagModel>
    decreases calls.len() - j,
{
    if j < 0 || j >= calls.len() {
        acc
    } else {
        let (off, callee) = calls[j];
        let next = if names.contains(callee) {
            acc
        } else if crate::vm::builtin_op(callee) is Some {
            if caps & CAP_F64_MATH != CAP_F64_MATH {
                acc.push(
                    DiagModel {
                        code: VerificationCode::CapabilityViolation,
                        function: Some(fname),
                        offset: Some(off),
                        message: "builtin call target '"@ + callee + "' requires capability bits 0x00000002"@,
                    },
                )
            } else {
                acc
            }
        } else {
            acc.push(
                DiagModel {
                    code: VerificationCode::UnknownCallTarget,
                    function: Some(fname),
                    offset: Some(off),
                    message: "call target '"@ + callee + "' does not resolve to any function in this SemCode program"@,
                },
            )
        };
        call_diags(fname, calls, names, caps, j + 1, next)
    }
}

/// The call findings of accepted functions `i..`, after `acc`.
pub open spec fn all_call_diags(fs: Seq<FunctionEntry>, caps: u32, i: int, acc: Seq<DiagModel>) -> Seq<DiagModel>
    decreases fs.len() - i,
{
    if i < 0 || i >= fs.len() {
        acc
    } else {
        all_call_diags(fs, caps, i + 1, call_diags(fs[i].0, fs[i].2.calls, entry_names(fs), caps, 0, acc))
    }
}

/// The finding for too many functions, if there are.
pub open spec fn frame_diags(n: int, q: RuntimeQuotas) -> Seq<DiagModel> {
    if n > q.max_frames {
        seq![
            DiagModel {
                code: VerificationCode::ResourceLimitExceeded,
                function: None,
                offset: None,
                message: "program defines "@ + crate::text::decimal(n as nat)
                    + " functions, which exceeds the verified-local frame budget of "@ + crate::text::decimal(
                    q.max_frames as nat,
                ),
            },
        ]
    } else {
        Seq::empty()
    }
}

/// The verdict on an image under the verified-local quotas: the index of
/// its header and its accepted functions, or every finding in the order
/// they were made.
pub open spec fn program_verdict(bytes: Seq<u8>) -> Result<(int, Seq<FunctionEntry>), Seq<DiagModel>> {
    let q = RuntimeQuotas::spec_verified_local();
    if bytes.len() < 8 {
        Err(
            seq![
                DiagModel {
                    code: VerificationCode::BadHeader,
                    function: None,
                    offset: None,
                    message: "SemCode file is shorter than the 8-byte header"@,
                },
            ],
        )
    } else {
        match crate::semcode_format::header_index_of_magic(bytes.subrange(0, 8)) {
            None => Err(
                seq![
                    DiagModel {
                        code: VerificationCode::UnsupportedVersion,
                        function: None,
                        offset: Some(0),
                        message: "unsupported SemCode header '"@ + lossy_utf8(bytes.subrange(0, 8)) + "'"@,
                    },
                ],
            ),
            Some(h) => {
                let hdr = crate::semcode_format::spec_supported_headers()[h];
                let sc = program_scan(
                    bytes,
                    8,
                    hdr.3,
                    hdr.0,
                    q,
                    ProgramScan { diags: Seq::empty(), funcs: Seq::empty() },
                );
                let ds = all_call_diags(sc.funcs, hdr.3, 0, sc.diags + frame_diags(sc.funcs.len() as int, q));
                if ds.len() == 0 {
                    Ok((h, sc.funcs))
                } else {
                    Err(ds)
                }
            },
        }
    }
}

/// An accepted image: its header and a summary of each function.
#[derive(Debug, Clone)]
pub struct VerifiedProgram {
    pub header: crate::semcode_format::SemcodeHeaderSpec,
    pub functions: Vec<VerifiedFunction>,
}

/// The accepted functions as plain values.
pub open spec fn pending_model(ps: Seq<PendingFunction>) -> Seq<FunctionEntry> {
    Seq::new(
        ps.len(),
        |k: int|
            (
                ps[k].verified.name@,
                ps[k].verified.code_len as int,
                FunctionFacts {
                    string_count: ps[k].verified.string_count as int,
                    debug_count: ps[k].verified.debug_symbol_count as int,
                    calls: calls_model(ps[k].call_targets@),
                },
            ),
    )
}

fn push_diag(
    diags: &mut Vec<VerificationDiagnostic>,
    code: VerificationCode,
    function: Option<String>,
    offset: Option<usize>,
    message: &str,
)
    ensures
        diags_model(final(diags)@) == diags_model(old(diags)@).push(
            DiagModel {
                code,
                function: match function {
                    Some(f) => Some(f@),
                    None => None,
                },
                offset: match offset {
                    Some(o) => Some(o as int),
                    None => None,
                },
                message: message@,
            },
        ),
{
    let d = diag(code, function, offset, message);
    let ghost before = diags@;
    diags.push(d);
    assert(diags_model(diags@) =~= diags_model(before).push(diag_model(d)));
}

fn scan_program(
    bytes: &[u8],
    header: &crate::semcode_format::SemcodeHeaderSpec,
    quotas: &RuntimeQuotas,
) -> (r: (Vec<VerificationDiagnostic>, Vec<PendingFunction>))
    requires
        bytes@.len() >= 8,
    ensures
        program_scan(
            bytes@,
            8,
            header.capabilities,
            header.magic@,
            *quotas,
            ProgramScan { diags: Seq::empty(), funcs: Seq::empty() },
        ) == (ProgramScan { diags: diags_model(r.0@), funcs: pending_model(r.1@) }),
{
    let ghost b = bytes@;
    let mut diags: Vec<VerificationDiagnostic> = Vec::new();
    let mut pending: Vec<PendingFunction> = Vec::new();
    assert(diags_model(diags@) =~= Seq::<DiagModel>::empty());
    assert(pending_model(pending@) =~= Seq::<FunctionEntry>::empty());
    let mut cursor: usize = 8;
    while cursor < bytes.len()
        invariant
            b == bytes@,
            8 <= cursor <= b.len(),
            program_scan(
                b,
                8,
                header.capabilities,
                header.magic@,
                *quotas,
                ProgramScan { diags: Seq::empty(), funcs: Seq::empty() },
            ) == program_scan(
                b,
                cursor as int,
                header.capabilities,
                header.magic@,
                *quotas,
                ProgramScan { diags: diags_model(diags@), funcs: pending_model(pending@) },
            ),
        decreases b.len() - cursor,
    {
        let start = cursor;
        let ghost acc0 = ProgramScan { diags: diags_model(diags@), funcs: pending_model(pending@) };
        let ghost caps = header.capabilities;
        let ghost magic = header.magic@;
        let name_len = match read_u16_le(bytes, &mut cursor) {
            Ok(v) => v as usize,
            Err(_) => {
                push_diag(
                    &mut diags,
                    VerificationCode::TruncatedFunction,
                    None,
                    Some(start),
                    "truncated function header while reading name length",
                );
                cursor = bytes.len();
                assert(program_scan(b, start as int, caps, magic, *quotas, acc0) == ProgramScan {
                    diags: diags_model(diags@),
                    funcs: pending_model(pending@),
                });
                continue;
            },
        };
        if name_len == 0 {
            push_diag(&mut diags, VerificationCode::InvalidFunctionName, None, Some(start), "function name must not be empty");
            cursor = bytes.len();
            assert(program_scan(b, start as int, caps, magic, *quotas, acc0) == ProgramScan {
                diags: diags_model(diags@),
                funcs: pending_model(pending@),
            });
            continue;
        }
        let at = cursor;
        let name = match crate::semcode_format::read_utf8(bytes, &mut cursor, name_len) {
            Ok(v) => v,
            Err(_) => {
                push_diag(
                    &mut diags,
                    VerificationCode::InvalidFunctionName,
                    None,
                    Some(start),
                    "function name is truncated or invalid utf-8",
                );
                cursor = bytes.len();
                assert(program_scan(b, start as int, caps, magic, *quotas, acc0) == ProgramScan {
                    diags: diags_model(diags@),
                    funcs: pending_model(pending@),
                });
                continue;
            },
        };
        proof {
            vstd::utf8::encode_utf8_decode_utf8(name@);
            assert(vstd::utf8::decode_utf8(b.subrange(at as int, at + name_len)) == name@);
        }
        let code_len = match read_u32_le(bytes, &mut cursor) {
            Ok(v) => v as usize,
            Err(_) => {
                push_diag(
                    &mut diags,
                    VerificationCode::TruncatedFunction,
                    Some(name.clone()),
                    Some(start),
                    "truncated function header while reading code length",
                );
                cursor = bytes.len();
                assert(program_scan(b, start as int, caps, magic, *quotas, acc0) == ProgramScan {
                    diags: diags_model(diags@),
                    funcs: pending_model(pending@),
                });
                continue;
            },
        };
        if code_len > bytes.len() - cursor {
            push_diag(
                &mut diags,
                VerificationCode::TruncatedFunction,
                Some(name.clone()),
                Some(cursor),
                "function code extends past end of file",
            );
            cursor = bytes.len();
            assert(program_scan(b, start as int, caps, magic, *quotas, acc0) == ProgramScan {
                diags: diags_model(diags@),
                funcs: pending_model(pending@),
            });
            continue;
        }
        let code = vstd::slice::slice_subrange(bytes, cursor, cursor + code_len);
        let ghost before_d = diags_model(diags@);
        let ghost before_p = pending_model(pending@);
        let ghost p3 = cursor as int;
        let ghost cl = code_len as int;
        assert(code@ == b.subrange(p3, p3 + cl));
        let ghost verdict = check_function(code@, caps, magic, *quotas);
        match verify_function_code(name.as_str(), code, header, quotas) {
            Ok(f) => {
                let ghost facts = verdict->Ok_0;
                pending.push(f);
                proof {
                    let e = pending_model(pending@).last();
                    assert(e.2 =~= facts);
                    assert(e == (name@, cl, facts));
                    assert(pending_model(pending@) =~= before_p.push((name@, cl, facts)));
                }
            },
            Err(rep) => {
                let mut found = rep.diagnostics;
                let ghost d0 = found@[0];
                match found.pop() {
                    Some(d) => {
                        diags.push(d);
                        assert(diags_model(diags@) =~= before_d.push(diag_model(d0)));
                    },
                    None => {},
                }
            },
        }
        cursor = cursor + code_len;
        proof {
            let next = match verdict {
                Ok(fx) => ProgramScan { diags: acc0.diags, funcs: acc0.funcs.push((name@, cl, fx)) },
                Err(x) => with_diag(acc0, x.0, Some(name@), Some(x.1), x.2),
            };
            assert(next == ProgramScan { diags: diags_model(diags@), funcs: pending_model(pending@) });
            assert(program_scan(b, start as int, caps, magic, *quotas, acc0) == program_scan(
                b,
                cursor as int,
                caps,
                magic,
                *quotas,
                next,
            ));
        }
    }
    (diags, pending)
}

fn has_accepted(pending: &Vec<PendingFunction>, callee: &String) -> (r: bool)
    ensures
        r == entry_names(pending_model(pending@)).contains(callee@),
{
    let ghost names = entry_names(pending_model(pending@));
    let mut k: usize = 0;
    while k < pending.len()
        invariant
            k <= pending@.len(),
            names == entry_names(pending_model(pending@)),
            forall|j: int| 0 <= j < k ==> names[j] != callee@,
        decreases pending@.len() - k,
    {
        if pending[k].verified.name.eq(callee) {
            assert(names[k as int] == callee@);
            return true;
        }
        k = k + 1;
    }
    false
}

fn push_call_diags(
    diags: &mut Vec<VerificationDiagnostic>,
    pending: &Vec<PendingFunction>,
    i: usize,
    caps: u32,
)
    requires
        i < pending@.len(),
    ensures
        diags_model(final(diags)@) == call_diags(
            pending_model(pending@)[i as int].0,
            pending_model(pending@)[i as int].2.calls,
            entry_names(pending_model(pending@)),
            caps,
            0,
            diags_model(old(diags)@),
        ),
{
    let ghost fs = pending_model(pending@);
    let ghost fname = fs[i as int].0;
    let ghost calls = fs[i as int].2.calls;
    let ghost names = entry_names(fs);
    let f = &pending[i];
    let mut j: usize = 0;
    while j < f.call_targets.len()
        invariant
            fs == pending_model(pending@),
            i < pending@.len(),
            f == pending@[i as int],
            fname == f.verified.name@,
            calls == calls_model(f.call_targets@),
            names == entry_names(fs),
            j <= f.call_targets@.len(),
            call_diags(fname, calls, names, caps, 0, diags_model(old(diags)@)) == call_diags(
                fname,
                calls,
                names,
                caps,
                j as int,
                diags_model(diags@),
            ),
        decreases f.call_targets@.len() - j,
    {
        let callee = &f.call_targets[j].1;
        let off = f.call_targets[j].0;
        assert(calls[j as int] == (off as int, callee@));
        if !has_accepted(pending, callee) {
            if crate::vm::builtin_op_exec(callee.as_str()).is_some() {
                if caps & CAP_F64_MATH != CAP_F64_MATH {
                    let mut m = String::from_str("builtin call target '");
                    m.append(callee.as_str());
                    m.append("' requires capability bits 0x00000002");
                    push_diag(
                        diags,
                        VerificationCode::CapabilityViolation,
                        Some(f.verified.name.clone()),
                        Some(off),
                        m.as_str(),
                    );
                }
            } else {
                let mut m = String::from_str("call target '");
                m.append(callee.as_str());
                m.append("' does not resolve to any function in this SemCode program");
                push_diag(
                    diags,
                    VerificationCode::UnknownCallTarget,
                    Some(f.verified.name.clone()),
                    Some(off),
                    m.as_str(),
                );
            }
        }
        j = j + 1;
    }
}

/// Checks an image without running it, under the quotas for verified
/// local runs. It is accepted when nothing is found; otherwise every
/// finding is reported, in the order it was made.
pub fn verify_semcode(bytes: &[u8]) -> (r: Result<VerifiedProgram, RejectReport>)
    ensures
        match program_verdict(bytes@) {
            Ok((h, fs)) => r matches Ok(p) && crate::semcode_format::header_view(p.header)
                == crate::semcode_format::spec_supported_headers()[h] && p.functions@.len() == fs.len() && (
            forall|k: int|
                0 <= k < fs.len() ==> (#[trigger] p.functions@[k]).name@ == fs[k].0 && p.functions@[k].code_len
                    == fs[k].1 && p.functions@[k].string_count == fs[k].2.string_count
                    && p.functions@[k].debug_symbol_count == fs[k].2.debug_count),
            Err(ds) => r matches Err(rep) && diags_model(rep.diagnostics@) == ds,
        },
{
    let ghost b = bytes@;
    let quotas = RuntimeQuotas::verified_local();
    let mut diags: Vec<VerificationDiagnostic> = Vec::new();
    if bytes.len() < 8 {
        push_diag(
            &mut diags,
            VerificationCode::BadHeader,
            None,
            None,
            "SemCode file is shorter than the 8-byte header",
        );
        assert(diags_model(diags@) =~= program_verdict(b)->Err_0);
        return Err(RejectReport { diagnostics: diags });
    }
    let magic: [u8; 8] = [bytes[0], bytes[1], bytes[2], bytes[3], bytes[4], bytes[5], bytes[6], bytes[7]];
    assert(magic@ =~= b.subrange(0, 8));
    let header = match crate::semcode_format::header_spec_from_magic(&magic) {
        Some(h) => h,
        None => {
            let mut m = String::from_str("unsupported SemCode header '");
            let shown = lossy_text(&magic);
            m.append(shown.as_str());
            m.append("'");
            push_diag(&mut diags, VerificationCode::UnsupportedVersion, None, Some(0), m.as_str());
            assert(diags_model(diags@) =~= program_verdict(b)->Err_0);
            return Err(RejectReport { diagnostics: diags });
        },
    };
    let (mut diags, pending) = scan_program(bytes, &header, &quotas);
    let ghost fs = pending_model(pending@);
    let ghost caps = header.capabilities;
    if pending.len() > quotas.max_frames {
        let mut m = String::from_str("program defines ");
        crate::text::push_decimal(&mut m, pending.len() as u64);
        m.append(" functions, which exceeds the verified-local frame budget of ");
        crate::text::push_decimal(&mut m, quotas.max_frames as u64);
        push_diag(&mut diags, VerificationCode::ResourceLimitExceeded, None, None, m.as_str());
    }
    proof {
        let sc = program_scan(b, 8, caps, header.magic@, quotas, ProgramScan { diags: Seq::empty(), funcs: Seq::empty() });
        assert(diags_model(diags@) =~= sc.diags + frame_diags(sc.funcs.len() as int, quotas));
    }
    let ghost base = diags_model(diags@);
    let mut i: usize = 0;
    while i < pending.len()
        invariant
            i <= pending@.len(),
            caps == header.capabilities,
            fs == pending_model(pending@),
            all_call_diags(fs, caps, 0, base) == all_call_diags(fs, caps, i as int, diags_model(diags@)),
        decreases pending@.len() - i,
    {
        push_call_diags(&mut diags, &pending, i, header.capabilities);
        i = i + 1;
    }
    if diags.len() > 0 {
        return Err(RejectReport { diagnostics: diags });
    }
    let mut functions: Vec<VerifiedFunction> = Vec::new();
    let mut k: usize = 0;
    let mut rest = pending;
    while k < rest.len()
        invariant
            k <= rest@.len(),
            fs == pending_model(rest@),
            functions@.len() == k,
            forall|j: int|
                0 <= j < k ==> (#[trigger] functions@[j]).name@ == fs[j].0 && functions@[j].code_len == fs[j].1
                    && functions@[j].string_count == fs[j].2.string_count && functions@[j].debug_symbol_count
                    == fs[j].2.debug_count,
        decreases rest@.len() - k,
    {
        let v = &rest[k].verified;
        functions.push(VerifiedFunction {
            name: v.name.clone(),
            code_len: v.code_len,
            string_count: v.string_count,
            debug_symbol_count: v.debug_symbol_count,
        });
        k = k + 1;
    }
    Ok(VerifiedProgram { header, functions })
}

proof fn lemma_entries_front(x: Seq<char>, t: Seq<Seq<char>>)
    requires
        crate::emit::entries_bytes(seq![x] + t) is Ok,
    ensures
        crate::emit::entries_bytes(t) is Ok,
        vstd::utf8::encode_utf8(x).len() <= u16::MAX,
        crate::emit::entries_bytes(seq![x] + t)->Ok_0 == crate::semcode_format::le_bytes_u16(
            vstd::utf8::encode_utf8(x).len() as u16,
        ) + vstd::utf8::encode_utf8(x) + crate::emit::entries_bytes(t)->Ok_0,
    decreases t.len(),
{
    let xt = seq![x] + t;
    if t.len() == 0 {
        assert(xt.drop_last() =~= Seq::<Seq<char>>::empty());
        assert(xt.last() == x);
        assert(crate::emit::entries_bytes(Seq::<Seq<char>>::empty()) == Ok::<Seq<u8>, Seq<char>>(Seq::empty()));
        assert(crate::emit::entries_bytes(xt)->Ok_0 =~= crate::semcode_format::le_bytes_u16(
            vstd::utf8::encode_utf8(x).len() as u16,
        ) + vstd::utf8::encode_utf8(x) + Seq::<u8>::empty());
    } else {
        assert(xt.drop_last() =~= seq![x] + t.drop_last());
        assert(xt.last() == t.last());
        lemma_entries_front(x, t.drop_last());
        let u = vstd::utf8::encode_utf8(t.last());
        let head = crate::semcode_format::le_bytes_u16(vstd::utf8::encode_utf8(x).len() as u16) + vstd::utf8::encode_utf8(x);
        let mid = crate::emit::entries_bytes(t.drop_last())->Ok_0;
        assert(head + mid + crate::semcode_format::le_bytes_u16(u.len() as u16) + u =~= head + (mid
            + crate::semcode_format::le_bytes_u16(u.len() as u16) + u));
    }
}

proof fn lemma_entries_read_back(t: Seq<Seq<char>>, pre: Seq<u8>, post: Seq<u8>, acc: Seq<Seq<char>>)
    requires
        crate::emit::entries_bytes(t) is Ok,
    ensures
        strings_from(
            pre + crate::emit::entries_bytes(t)->Ok_0 + post,
            pre.len() as int,
            t.len() as int,
            acc,
        ) == Ok::<(Seq<Seq<char>>, int), (int, Seq<char>)>(
            (acc + t, pre.len() + crate::emit::entries_bytes(t)->Ok_0.len() as int),
        ),
    decreases t.len(),
{
    let e = crate::emit::entries_bytes(t)->Ok_0;
    if t.len() == 0 {
        assert(acc + t =~= acc);
    } else {
        let x = t[0];
        let rest = t.drop_first();
        assert(t =~= seq![x] + rest);
        lemma_entries_front(x, rest);
        let u = vstd::utf8::encode_utf8(x);
        let l = crate::semcode_format::le_bytes_u16(u.len() as u16);
        let e2 = crate::emit::entries_bytes(rest)->Ok_0;
        let code = pre + e + post;
        assert(code =~= pre + l + (u + e2 + post));
        crate::semcode_format::lemma_u16_read_after_write(pre, u.len() as u16);
        assert((pre + l + (u + e2 + post)).subrange(0, pre.len() as int + 2) =~= pre + l);
        assert(crate::semcode_format::le_u16_at(code, pre.len() as int) == u.len()) by {
            assert(code[pre.len() as int] == (pre + l)[pre.len() as int]);
            assert(code[pre.len() as int + 1] == (pre + l)[pre.len() as int + 1]);
        }
        let q = pre.len() as int + 2;
        assert(code.subrange(q, q + u.len() as int) =~= u);
        vstd::utf8::encode_utf8_valid_utf8(x);
        vstd::utf8::encode_utf8_decode_utf8(x);
        let pre2 = pre + l + u;
        assert(code =~= pre2 + e2 + post);
        lemma_entries_read_back(rest, pre2, post, acc.push(x));
        assert(acc.push(x) + rest =~= acc + t);
    }
}

/// Law: the string table the emitter writes reads back, by the checker's
/// reader, as the same strings, and the reading ends where the table ends.
pub proof fn lemma_string_table_read_back(t: Seq<Seq<char>>, post: Seq<u8>)
    requires
        crate::emit::table_bytes(t) is Ok,
    ensures
        ({
            let b = crate::emit::table_bytes(t)->Ok_0 + post;
            &&& crate::semcode_format::le_u16_at(b, 0) == t.len()
            &&& strings_from(b, 2, t.len() as int, Seq::empty()) == Ok::<(Seq<Seq<char>>, int), (int, Seq<char>)>(
                (t, crate::emit::table_bytes(t)->Ok_0.len() as int),
            )
        }),
{
    let l = crate::semcode_format::le_bytes_u16(t.len() as u16);
    let e = crate::emit::entries_bytes(t)->Ok_0;
    let b = crate::emit::table_bytes(t)->Ok_0 + post;
    assert(b =~= l + e + post);
    crate::semcode_format::lemma_u16_read_after_write(Seq::empty(), t.len() as u16);
    assert(Seq::<u8>::empty() + l =~= l);
    assert(crate::semcode_format::le_u16_at(b, 0) == t.len()) by {
        assert(b[0] == l[0]);
        assert(b[1] == l[1]);
    }
    lemma_entries_read_back(t, l, post, Seq::empty());
    assert(Seq::<Seq<char>>::empty() + t =~= t);
}

/// Whether `b` is the opcode byte of an `f64` instruction: `LOAD_F64`,
/// `ADD_F64`, `SUB_F64`, `MUL_F64` or `DIV_F64`.
pub open spec fn is_f64_opcode_byte(b: u8) -> bool {
    opcode_of_byte(b) == Some(Opcode::LoadF64) || opcode_of_byte(b) == Some(Opcode::AddF64) || opcode_of_byte(b)
        == Some(Opcode::SubF64) || opcode_of_byte(b) == Some(Opcode::MulF64) || opcode_of_byte(b) == Some(
        Opcode::DivF64,
    )
}

/// Law: a scan of an instruction stream that meets an `f64` instruction at
/// any of the instruction starts it records marks the stream as needing the
/// `f64` capability; the marks gathered before are kept, and so are the
/// starts recorded before.
pub proof fn lemma_scan_marks_f64(code: Seq<u8>, s: int, cur: int, acc: ScanModel)
    ensures
        scan_from(code, s, cur, acc) matches Ok(sc) ==> {
            &&& sc.starts.len() >= acc.starts.len()
            &&& forall|k: int| 0 <= k < acc.starts.len() ==> sc.starts[k] == acc.starts[k]
            &&& (acc.caps & CAP_F64_MATH == CAP_F64_MATH ==> sc.caps & CAP_F64_MATH == CAP_F64_MATH)
            &&& forall|k: int|
                acc.starts.len() <= k < sc.starts.len() && is_f64_opcode_byte(#[trigger] code[s + sc.starts[k]])
                    ==> sc.caps & CAP_F64_MATH == CAP_F64_MATH
        },
    decreases code.len() - cur,
{
    if cur >= code.len() || cur < s {
    } else {
        let off = cur - s;
        match opcode_of_byte(code[cur]) {
            None => {},
            Some(op) => match operands_of(code, cur + 1, op) {
                Err(_) => {},
                Ok((refs, q)) => if q <= cur || q > code.len() {
                } else {
                    let acc2 = scan_step(acc, off, op, refs);
                    lemma_scan_marks_f64(code, s, q, acc2);
                    let x = acc.caps;
                    let y = op_caps(op);
                    assert(x & 2 == 2 ==> (x | y) & 2 == 2) by (bit_vector);
                    assert(y == 2 ==> (x | y) & 2 == 2) by (bit_vector);
                    if scan_from(code, s, cur, acc) is Ok {
                        let sc = scan_from(code, s, cur, acc)->Ok_0;
                        assert(sc == scan_from(code, s, q, acc2)->Ok_0);
                        let k0 = acc.starts.len() as int;
                        assert(acc2.starts[k0] == off);
                        assert(sc.starts[k0] == off);
                        assert(s + off == cur);
                        if is_f64_opcode_byte(code[cur]) {
                            assert(op_caps(op) == CAP_F64_MATH);
                        }
                    }
                },
            },
        }
    }
}

/// Law: once a function's instruction stream needs the `f64` capability
/// and the header does not grant it, the final checks reject the function
/// with a capability violation, whatever else it holds, unless an earlier
/// check (a debug offset past the stream) already did.
pub proof fn lemma_f64_without_capability_rejected(
    instr_len: int,
    strings: Seq<Seq<char>>,
    n_dbg: int,
    pcs: Seq<u32>,
    sc: ScanModel,
    caps: u32,
    magic: Seq<u8>,
    q: RuntimeQuotas,
)
    requires
        first_past(pcs, instr_len, 0) is None,
        sc.caps & CAP_F64_MATH == CAP_F64_MATH,
        caps & CAP_F64_MATH == 0,
    ensures
        final_checks(instr_len, strings, n_dbg, pcs, sc, caps, magic, q) matches Err((code, _, _))
            && code == VerificationCode::CapabilityViolation,
{
    let x = sc.caps;
    let d: u32 = if n_dbg > 0 {
        CAP_DEBUG_SYMBOLS
    } else {
        0u32
    };
    assert(x & 2 == 2 && caps & 2 == 0 ==> (x | d) & !caps != 0) by (bit_vector);
}

/// Whether `b` is the opcode byte of an instruction that needs capability
/// bit `cap`: the `f64` instructions need `CAP_F64_MATH`, `LOAD_FX` needs
/// `CAP_FX_VALUES`, and the device instructions (`GATE_READ`, `GATE_WRITE`,
/// `PULSE_EMIT`) need `CAP_GATE_SURFACE`.
pub open spec fn needs_cap_byte(b: u8, cap: u32) -> bool {
    ||| cap == CAP_F64_MATH && is_f64_opcode_byte(b)
    ||| cap == CAP_FX_VALUES && opcode_of_byte(b) == Some(Opcode::LoadFx)
    ||| cap == CAP_GATE_SURFACE && (opcode_of_byte(b) == Some(Opcode::GateRead) || opcode_of_byte(b) == Some(
        Opcode::GateWrite,
    ) || opcode_of_byte(b) == Some(Opcode::PulseEmit))
}

/// Law: a successful scan marks every capability that one of the
/// instructions at its recorded starts needs, and keeps the marks and the
/// starts it was given.
pub proof fn lemma_scan_marks_caps(code: Seq<u8>, s: int, cur: int, acc: ScanModel, cap: u32)
    ensures
        scan_from(code, s, cur, acc) matches Ok(sc) ==> {
            &&& sc.starts.len() >= acc.starts.len()
            &&& forall|k: int| 0 <= k < acc.starts.len() ==> sc.starts[k] == acc.starts[k]
            &&& (acc.caps & cap == cap ==> sc.caps & cap == cap)
            &&& forall|k: int|
                acc.starts.len() <= k < sc.starts.len() && needs_cap_byte(#[trigger] code[s + sc.starts[k]], cap)
                    ==> sc.caps & cap == cap
        },
    decreases code.len() - cur,
{
    if cur >= code.len() || cur < s {
    } else {
        let off = cur - s;
        match opcode_of_byte(code[cur]) {
            None => {},
            Some(op) => match operands_of(code, cur + 1, op) {
                Err(_) => {},
                Ok((refs, q)) => if q <= cur || q > code.len() {
                } else {
                    let acc2 = scan_step(acc, off, op, refs);
                    lemma_scan_marks_caps(code, s, q, acc2, cap);
                    let x = acc.caps;
                    let y = op_caps(op);
                    assert(x & cap == cap ==> (x | y) & cap == cap) by (bit_vector);
                    assert(y == cap ==> (x | y) & cap == cap) by (bit_vector);
                    if scan_from(code, s, cur, acc) is Ok {
                        let sc = scan_from(code, s, cur, acc)->Ok_0;
                        assert(sc == scan_from(code, s, q, acc2)->Ok_0);
                        let k0 = acc.starts.len() as int;
                        assert(acc2.starts[k0] == off);
                        assert(sc.starts[k0] == off);
                        assert(s + off == cur);
                        if needs_cap_byte(code[cur], cap) {
                            assert(op_caps(op) == cap);
                        }
                    }
                },
            },
        }
    }
}

/// Law: a function whose stream needs a capability bit that the header
/// does not grant is rejected by the final checks with a capability
/// violation, unless a debug offset past the stream was found first.
pub proof fn lemma_missing_capability_rejected(
    instr_len: int,
    strings: Seq<Seq<char>>,
    n_dbg: int,
    pcs: Seq<u32>,
    sc: ScanModel,
    caps: u32,
    magic: Seq<u8>,
    q: RuntimeQuotas,
    cap: u32,
)
    requires
        first_past(pcs, instr_len, 0) is None,
        cap != 0,
        sc.caps & cap == cap,
        caps & cap == 0,
    ensures
        final_checks(instr_len, strings, n_dbg, pcs, sc, caps, magic, q) matches Err((code, _, _))
            && code == VerificationCode::CapabilityViolation,
{
    let x = sc.caps;
    let d: u32 = if n_dbg > 0 {
        CAP_DEBUG_SYMBOLS
    } else {
        0u32
    };
    assert(cap != 0 && x & cap == cap && caps & cap == 0 ==> (x | d) & !caps != 0) by (bit_vector);
}

} // verus!
