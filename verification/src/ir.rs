//! The register-based intermediate representation that the lowering emits
//! and the optimisation passes rewrite, with its structural validation.
use crate::quad::QuadVal;
use vstd::prelude::*;

verus! {

/// One IR instruction. Registers are `u16`; labels and variables are named.
/// An `f64` literal is carried by its IEEE-754 bit pattern.
#[derive(Debug, Clone, PartialEq)]
#[allow(inconsistent_fields)]
pub enum IrInstr {
    Label { name: String },
    LoadQ { dst: u16, val: QuadVal },
    LoadBool { dst: u16, val: bool },
    LoadI32 { dst: u16, val: i32 },
    LoadU32 { dst: u16, val: u32 },
    LoadF64 { dst: u16, val: u64 },
    LoadFx { dst: u16, val: i32 },
    LoadText { dst: u16, val: String },
    AddFx { dst: u16, lhs: u16, rhs: u16 },
    SubFx { dst: u16, lhs: u16, rhs: u16 },
    MulFx { dst: u16, lhs: u16, rhs: u16 },
    DivFx { dst: u16, lhs: u16, rhs: u16 },
    MakeTuple { dst: u16, items: Vec<u16> },
    MakeRecord { dst: u16, name: String, items: Vec<u16> },
    MakeAdt { dst: u16, adt_name: String, variant_name: String, tag: u16, items: Vec<u16> },
    AdtTag { dst: u16, src: u16, adt_name: String },
    AdtGet { dst: u16, src: u16, adt_name: String, index: u16 },
    RecordGet { dst: u16, src: u16, record_name: String, index: u16 },
    TupleGet { dst: u16, src: u16, index: u16 },
    LoadVar { dst: u16, name: String },
    StoreVar { name: String, src: u16 },
    QAnd { dst: u16, lhs: u16, rhs: u16 },
    QOr { dst: u16, lhs: u16, rhs: u16 },
    QNot { dst: u16, src: u16 },
    QImpl { dst: u16, lhs: u16, rhs: u16 },
    BoolAnd { dst: u16, lhs: u16, rhs: u16 },
    BoolOr { dst: u16, lhs: u16, rhs: u16 },
    BoolNot { dst: u16, src: u16 },
    CmpEq { dst: u16, lhs: u16, rhs: u16 },
    CmpNe { dst: u16, lhs: u16, rhs: u16 },
    CmpI32Lt { dst: u16, lhs: u16, rhs: u16 },
    CmpI32Le { dst: u16, lhs: u16, rhs: u16 },
    AddI32 { dst: u16, lhs: u16, rhs: u16 },
    AddF64 { dst: u16, lhs: u16, rhs: u16 },
    SubF64 { dst: u16, lhs: u16, rhs: u16 },
    MulF64 { dst: u16, lhs: u16, rhs: u16 },
    DivF64 { dst: u16, lhs: u16, rhs: u16 },
    Jmp { label: String },
    JmpIf { cond: u16, label: String },
    Assert { cond: u16 },
    Call { dst: Option<u16>, name: String, args: Vec<u16> },
    GateRead { dst: u16, device_id: u16, port: u16 },
    GateWrite { device_id: u16, port: u16, src: u16 },
    PulseEmit { signal: String },
    StateQuery { dst: u16, key: String },
    StateUpdate { key: String, src: u16 },
    EventPost { signal: String },
    ClockRead { dst: u16 },
    Ret { src: Option<u16> },
}

/// A named function body.
#[derive(Debug, Clone, PartialEq)]
pub struct IrFunction {
    pub name: String,
    pub instrs: Vec<IrInstr>,
}

/// A lowered program whose function list no longer changes.
#[derive(Debug, Clone, PartialEq)]
pub struct ImmutableIrProgram {
    funcs: Vec<IrFunction>,
}

impl ImmutableIrProgram {
    pub closed spec fn spec_functions(&self) -> Seq<IrFunction> {
        self.funcs@
    }

    /// Freezes `funcs`.
    pub fn from_vec(funcs: Vec<IrFunction>) -> (p: Self)
        ensures
            p.spec_functions() == funcs@,
    {
        ImmutableIrProgram { funcs }
    }

    /// The frozen functions, in order.
    pub fn functions(&self) -> (fs: &[IrFunction])
        ensures
            fs@ == self.spec_functions(),
    {
        self.funcs.as_slice()
    }
}

/// A structural defect of a lowered function: where it is and what it is.
#[derive(Debug, Clone, PartialEq, Eq)]
pub struct IrError {
    pub pos: usize,
    pub message: String,
}

/// The name a `Label` instruction defines.
pub open spec fn label_name(i: IrInstr) -> Option<Seq<char>> {
    match i {
        IrInstr::Label { name } => Some(name@),
        _ => None,
    }
}

/// The label a `Jmp` or `JmpIf` instruction targets.
pub open spec fn jump_target(i: IrInstr) -> Option<Seq<char>> {
    match i {
        IrInstr::Jmp { label } => Some(label@),
        IrInstr::JmpIf { label, .. } => Some(label@),
        _ => None,
    }
}

/// Some instruction before index `upto` defines label `n`.
pub open spec fn defines_label_before(s: Seq<IrInstr>, upto: int, n: Seq<char>) -> bool {
    exists|j: int| 0 <= j < upto && #[trigger] label_name(s[j]) == Some(n)
}

/// Instruction `k` defines a label that an earlier instruction already defined.
pub open spec fn is_duplicate_label_at(s: Seq<IrInstr>, k: int) -> bool {
    match label_name(s[k]) {
        Some(n) => defines_label_before(s, k, n),
        None => false,
    }
}

/// Instruction `k` jumps to a label that no instruction defines.
pub open spec fn is_unknown_jump_at(s: Seq<IrInstr>, k: int) -> bool {
    match jump_target(s[k]) {
        Some(t) => !defines_label_before(s, s.len() as int, t),
        None => false,
    }
}

/// Some instruction returns.
pub open spec fn has_ret(s: Seq<IrInstr>) -> bool {
    exists|j: int| 0 <= j < s.len() && #[trigger] s[j] is Ret
}

/// Some instruction defines a label twice.
pub open spec fn has_duplicate_label(s: Seq<IrInstr>) -> bool {
    exists|k: int| 0 <= k < s.len() && #[trigger] is_duplicate_label_at(s, k)
}

/// Some instruction jumps to an undefined label.
pub open spec fn has_unknown_jump(s: Seq<IrInstr>) -> bool {
    exists|k: int| 0 <= k < s.len() && #[trigger] is_unknown_jump_at(s, k)
}

fn same_text(a: &String, b: &String) -> (r: bool)
    ensures
        r == (a@ == b@),
{
    a.eq(b)
}

fn defines_label_in(instrs: &Vec<IrInstr>, upto: usize, n: &String) -> (r: bool)
    requires
        upto <= instrs@.len(),
    ensures
        r == defines_label_before(instrs@, upto as int, n@),
{
    let mut j: usize = 0;
    while j < upto
        invariant
            j <= upto <= instrs@.len(),
            forall|i: int| 0 <= i < j ==> label_name(#[trigger] instrs@[i]) != Some(n@),
        decreases upto - j,
    {
        if let IrInstr::Label { name } = &instrs[j] {
            if same_text(name, n) {
                assert(label_name(instrs@[j as int]) == Some(n@));
                return true;
            }
        }
        j = j + 1;
    }
    false
}

fn quoted_in(prefix: &str, item: &String, func: &String) -> (m: String)
    ensures
        m@ == prefix@ + item@ + "' in '"@ + func@ + "'"@,
{
    let mut m = String::from_str(prefix);
    m.append(item.as_str());
    m.append("' in '");
    m.append(func.as_str());
    m.append("'");
    m
}

/// Checks that a function defines each label once, returns somewhere and
/// jumps only to labels it defines. The first duplicate label is reported
/// before a missing `RET`, and a missing `RET` before the first jump to an
/// unknown label.
pub fn validate_ir(f: &IrFunction) -> (r: Result<(), IrError>)
    ensures
        has_duplicate_label(f.instrs@) ==> (r matches Err(e) && is_duplicate_label_at(
            f.instrs@,
            e.pos as int,
        ) && (forall|j: int| 0 <= j < e.pos ==> !is_duplicate_label_at(f.instrs@, j)) && e.pos
            < f.instrs@.len() && e.message@ == "duplicate label '"@ + label_name(
            f.instrs@[e.pos as int],
        ).unwrap() + "' in '"@ + f.name@ + "'"@),
        !has_duplicate_label(f.instrs@) && !has_ret(f.instrs@) ==> (r matches Err(e) && e.pos == 0
            && e.message@ == "function '"@ + f.name@ + "' has no RET"@),
        !has_duplicate_label(f.instrs@) && has_ret(f.instrs@) && has_unknown_jump(f.instrs@) ==> (
        r matches Err(e) && e.pos < f.instrs@.len() && is_unknown_jump_at(
            f.instrs@,
            e.pos as int,
        ) && (forall|j: int| 0 <= j < e.pos ==> !is_unknown_jump_at(f.instrs@, j))
            && e.message@ == "jump to unknown label '"@ + jump_target(
            f.instrs@[e.pos as int],
        ).unwrap() + "' in '"@ + f.name@ + "'"@),
        !has_duplicate_label(f.instrs@) && has_ret(f.instrs@) && !has_unknown_jump(f.instrs@)
            ==> r is Ok,
{
    let instrs = &f.instrs;
    let mut found_ret = false;
    let mut k: usize = 0;
    while k < instrs.len()
        invariant
            instrs@ == f.instrs@,
            k <= instrs@.len(),
            forall|j: int| 0 <= j < k ==> !is_duplicate_label_at(instrs@, j),
            found_ret == (exists|j: int| 0 <= j < k && #[trigger] instrs@[j] is Ret),
        decreases instrs@.len() - k,
    {
        match &instrs[k] {
            IrInstr::Label { name } => {
                if defines_label_in(instrs, k, name) {
                    assert(is_duplicate_label_at(instrs@, k as int));
                    let message = quoted_in("duplicate label '", name, &f.name);
                    return Err(IrError { pos: k, message });
                }
            },
            IrInstr::Ret { .. } => {
                assert(instrs@[k as int] is Ret);
                found_ret = true;
            },
            _ => {},
        }
        k = k + 1;
    }
    assert(!has_duplicate_label(instrs@));
    if !found_ret {
        assert(!has_ret(instrs@));
        let mut message = String::from_str("function '");
        message.append(f.name.as_str());
        message.append("' has no RET");
        return Err(IrError { pos: 0, message });
    }
    let mut k: usize = 0;
    while k < instrs.len()
        invariant
            instrs@ == f.instrs@,
            k <= instrs@.len(),
            forall|j: int| 0 <= j < k ==> !is_unknown_jump_at(instrs@, j),
            !has_duplicate_label(instrs@),
            has_ret(instrs@),
        decreases instrs@.len() - k,
    {
        match &instrs[k] {
            IrInstr::Jmp { label } => {
                if !defines_label_in(instrs, instrs.len(), label) {
                    assert(is_unknown_jump_at(instrs@, k as int));
                    let message = quoted_in("jump to unknown label '", label, &f.name);
                    return Err(IrError { pos: k, message });
                }
            },
            IrInstr::JmpIf { label, .. } => {
                if !defines_label_in(instrs, instrs.len(), label) {
                    assert(is_unknown_jump_at(instrs@, k as int));
                    let message = quoted_in("jump to unknown label '", label, &f.name);
                    return Err(IrError { pos: k, message });
                }
            },
            _ => {},
        }
        k = k + 1;
    }
    Ok(())
}

} // verus!
