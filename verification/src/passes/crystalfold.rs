//! CrystalFold: forward constant folding and algebraic identities within
//! straight-line code. Constants known per register are forgotten at every
//! label, jump, assertion, call and return.
//!
//! `f64` values travel as IEEE-754 bit patterns. Folding two `f64`
//! constants needs floating-point arithmetic, which the caller hands in as
//! a function on bit patterns; comparisons against `0.0` and `1.0` and
//! equality are decided here on the bits, as IEEE-754 defines them.
use crate::ir::IrInstr;
use crate::passes::cleanup::{bodies_of, cleaned, cleanup_rewrites, StructuralCleanupPass};
use crate::passes::{sat_add_u32, IrModule, OptPass, OptReport};
use crate::quad::{quad_and, quad_impl, quad_not, quad_or, spec_quad_and, spec_quad_impl, spec_quad_not, spec_quad_or, QuadVal};
use std::collections::HashMap;
use vstd::prelude::*;

verus! {

broadcast use vstd::std_specs::hash::group_hash_axioms;

/// The constant-folding pass.
#[derive(Debug, Clone, Copy, PartialEq, Eq, Structural)]
pub struct CrystalFoldPass;

/// A constant known to be in a register.
#[derive(Debug, Clone, Copy, PartialEq, Eq, Structural)]
pub enum ConstVal {
    Quad(QuadVal),
    Bool(bool),
    F64(u64),
    I32(i32),
    U32(u32),
    Fx(i32),
}

/// An `f64` operation on bit patterns: the four arithmetic operations,
/// and the functions the machine provides as builtins (unary ones ignore
/// their second operand).
#[derive(Debug, Clone, Copy, PartialEq, Eq, Structural)]
pub enum F64Op {
    Add,
    Sub,
    Mul,
    Div,
    Sin,
    Cos,
    Tan,
    Sqrt,
    Abs,
    Pow,
}

/// The bit pattern of `1.0`.
pub const F64_ONE_BITS: u64 = 0x3FF0_0000_0000_0000;

/// `x` is the bit pattern of a NaN.
pub open spec fn f64_is_nan(x: u64) -> bool {
    (x & 0x7FF0_0000_0000_0000u64) == 0x7FF0_0000_0000_0000u64 && (x & 0x000F_FFFF_FFFF_FFFFu64)
        != 0
}

/// `x` is the bit pattern of `0.0` or `-0.0`.
pub open spec fn f64_is_zero(x: u64) -> bool {
    (x & 0x7FFF_FFFF_FFFF_FFFFu64) == 0
}

/// IEEE-754 equality of two `f64` given by their bits: NaN equals nothing,
/// the two zeros are equal, and otherwise the bits must agree.
pub open spec fn f64_bits_eq(x: u64, y: u64) -> bool {
    !f64_is_nan(x) && !f64_is_nan(y) && (x == y || (f64_is_zero(x) && f64_is_zero(y)))
}

/// Equality of two constants as the folder decides it; `u32` constants and
/// constants of different kinds never compare equal.
pub open spec fn spec_const_eq(a: ConstVal, b: ConstVal) -> bool {
    match (a, b) {
        (ConstVal::Quad(x), ConstVal::Quad(y)) => x == y,
        (ConstVal::Bool(x), ConstVal::Bool(y)) => x == y,
        (ConstVal::F64(x), ConstVal::F64(y)) => f64_bits_eq(x, y),
        (ConstVal::I32(x), ConstVal::I32(y)) => x == y,
        (ConstVal::Fx(x), ConstVal::Fx(y)) => x == y,
        _ => false,
    }
}

/// The constant known for register `r`, if any.
pub open spec fn known(env: Map<u16, ConstVal>, r: u16) -> Option<ConstVal> {
    if env.contains_key(r) {
        Some(env[r])
    } else {
        None
    }
}

/// The register an instruction writes, for the instructions the folder
/// neither folds nor treats as a barrier.
pub open spec fn plain_dst(x: IrInstr) -> Option<u16> {
    match x {
        IrInstr::LoadText { dst, .. } => Some(dst),
        IrInstr::AddFx { dst, .. } => Some(dst),
        IrInstr::SubFx { dst, .. } => Some(dst),
        IrInstr::MulFx { dst, .. } => Some(dst),
        IrInstr::DivFx { dst, .. } => Some(dst),
        IrInstr::MakeTuple { dst, .. } => Some(dst),
        IrInstr::MakeRecord { dst, .. } => Some(dst),
        IrInstr::MakeAdt { dst, .. } => Some(dst),
        IrInstr::AdtTag { dst, .. } => Some(dst),
        IrInstr::AdtGet { dst, .. } => Some(dst),
        IrInstr::RecordGet { dst, .. } => Some(dst),
        IrInstr::TupleGet { dst, .. } => Some(dst),
        IrInstr::LoadVar { dst, .. } => Some(dst),
        IrInstr::CmpI32Lt { dst, .. } => Some(dst),
        IrInstr::CmpI32Le { dst, .. } => Some(dst),
        IrInstr::AddI32 { dst, .. } => Some(dst),
        IrInstr::GateRead { dst, .. } => Some(dst),
        IrInstr::StateQuery { dst, .. } => Some(dst),
        IrInstr::ClockRead { dst } => Some(dst),
        _ => None,
    }
}

/// The instruction ends straight-line code: all known constants are forgotten.
pub open spec fn is_barrier(x: IrInstr) -> bool {
    x is Label || x is Jmp || x is JmpIf || x is Assert || x is Call || x is Ret
}

/// The constant a load puts into its register.
pub open spec fn loaded_const(x: IrInstr) -> Option<(u16, ConstVal)> {
    match x {
        IrInstr::LoadQ { dst, val } => Some((dst, ConstVal::Quad(val))),
        IrInstr::LoadBool { dst, val } => Some((dst, ConstVal::Bool(val))),
        IrInstr::LoadI32 { dst, val } => Some((dst, ConstVal::I32(val))),
        IrInstr::LoadU32 { dst, val } => Some((dst, ConstVal::U32(val))),
        IrInstr::LoadF64 { dst, val } => Some((dst, ConstVal::F64(val))),
        IrInstr::LoadFx { dst, val } => Some((dst, ConstVal::Fx(val))),
        _ => None,
    }
}

/// The outcome of folding one instruction: the new constant map, what is
/// emitted in its place, and whether that counts as a rewrite.
pub type FoldOutcome = (Map<u16, ConstVal>, Seq<IrInstr>, bool);

/// Emits a `LoadBool` of `v` into `dst` as a rewrite.
pub open spec fn fold_to_bool(env: Map<u16, ConstVal>, dst: u16, v: bool) -> FoldOutcome {
    (env.insert(dst, ConstVal::Bool(v)), seq![IrInstr::LoadBool { dst, val: v }], true)
}

/// Emits a `LoadQ` of `v` into `dst` as a rewrite.
pub open spec fn fold_to_quad(env: Map<u16, ConstVal>, dst: u16, v: QuadVal) -> FoldOutcome {
    (env.insert(dst, ConstVal::Quad(v)), seq![IrInstr::LoadQ { dst, val: v }], true)
}

/// Emits a `LoadF64` of `v` into `dst` as a rewrite.
pub open spec fn fold_to_f64(env: Map<u16, ConstVal>, dst: u16, v: u64) -> FoldOutcome {
    (env.insert(dst, ConstVal::F64(v)), seq![IrInstr::LoadF64 { dst, val: v }], true)
}

/// Keeps `x`, forgetting what was known about `dst`.
pub open spec fn keep_unknown(env: Map<u16, ConstVal>, dst: u16, x: IrInstr) -> FoldOutcome {
    (env.remove(dst), seq![x], false)
}

/// Drops `x` as an identity (`dst` already holds the result).
pub open spec fn drop_identity(env: Map<u16, ConstVal>) -> FoldOutcome {
    (env, Seq::empty(), true)
}

/// `r` holds the boolean constant `v`.
pub open spec fn is_bool(env: Map<u16, ConstVal>, r: u16, v: bool) -> bool {
    known(env, r) == Some(ConstVal::Bool(v))
}

/// `r` holds the quad constant `v`.
pub open spec fn is_quad(env: Map<u16, ConstVal>, r: u16, v: QuadVal) -> bool {
    known(env, r) == Some(ConstVal::Quad(v))
}

/// `r` holds an `f64` constant satisfying `p`.
pub open spec fn is_f64_with(env: Map<u16, ConstVal>, r: u16, p: spec_fn(u64) -> bool) -> bool {
    known(env, r) matches Some(ConstVal::F64(v)) && p(v)
}

/// Folding of boolean conjunction and disjunction. `unit` is the value that
/// leaves the other operand unchanged; `zero` decides the result alone.
pub open spec fn fold_bool_bin(
    env: Map<u16, ConstVal>,
    x: IrInstr,
    dst: u16,
    lhs: u16,
    rhs: u16,
    is_and: bool,
) -> FoldOutcome {
    let unit = is_and;
    let zero = !is_and;
    match (known(env, lhs), known(env, rhs)) {
        (Some(ConstVal::Bool(a)), Some(ConstVal::Bool(b))) => fold_to_bool(
            env,
            dst,
            if is_and { a && b } else { a || b },
        ),
        _ => if dst == lhs && is_bool(env, rhs, unit) {
            drop_identity(env)
        } else if dst == rhs && is_bool(env, lhs, unit) {
            drop_identity(env)
        } else if is_bool(env, lhs, zero) || is_bool(env, rhs, zero) {
            fold_to_bool(env, dst, zero)
        } else {
            keep_unknown(env, dst, x)
        },
    }
}

/// Folding of quad conjunction (`S` is its unit, `N` absorbs) and quad
/// disjunction (`N` is its unit, `S` absorbs).
pub open spec fn fold_quad_bin(
    env: Map<u16, ConstVal>,
    x: IrInstr,
    dst: u16,
    lhs: u16,
    rhs: u16,
    is_and: bool,
) -> FoldOutcome {
    let unit = if is_and { QuadVal::S } else { QuadVal::N };
    let zero = if is_and { QuadVal::N } else { QuadVal::S };
    match (known(env, lhs), known(env, rhs)) {
        (Some(ConstVal::Quad(a)), Some(ConstVal::Quad(b))) => fold_to_quad(
            env,
            dst,
            if is_and { spec_quad_and(a, b) } else { spec_quad_or(a, b) },
        ),
        _ => if dst == lhs && is_quad(env, rhs, unit) {
            drop_identity(env)
        } else if dst == rhs && is_quad(env, lhs, unit) {
            drop_identity(env)
        } else if is_quad(env, lhs, zero) || is_quad(env, rhs, zero) {
            fold_to_quad(env, dst, zero)
        } else {
            keep_unknown(env, dst, x)
        },
    }
}

/// Folding of the `f64` operations; `fe` gives the result of an operation on
/// two bit patterns.
pub open spec fn fold_f64_bin(
    env: Map<u16, ConstVal>,
    x: IrInstr,
    op: F64Op,
    dst: u16,
    lhs: u16,
    rhs: u16,
    fe: spec_fn(F64Op, u64, u64) -> u64,
) -> FoldOutcome {
    let unit_rhs = |v: u64|
        if op is Add || op is Sub {
            f64_is_zero(v)
        } else {
            v == F64_ONE_BITS
        };
    let unit_lhs_applies = op is Add || op is Mul;
    match (known(env, lhs), known(env, rhs)) {
        (Some(ConstVal::F64(a)), Some(ConstVal::F64(b))) if !(op is Div && f64_is_zero(b)) => {
            fold_to_f64(env, dst, fe(op, a, b))
        },
        _ => if dst == lhs && is_f64_with(env, rhs, unit_rhs) {
            drop_identity(env)
        } else if unit_lhs_applies && dst == rhs && is_f64_with(env, lhs, unit_rhs) {
            drop_identity(env)
        } else {
            keep_unknown(env, dst, x)
        },
    }
}

/// What folding does to one instruction `x` given the known constants `env`.
pub open spec fn fold_step(
    env: Map<u16, ConstVal>,
    x: IrInstr,
    fe: spec_fn(F64Op, u64, u64) -> u64,
) -> FoldOutcome {
    if is_barrier(x) {
        (Map::empty(), seq![x], false)
    } else if loaded_const(x) is Some {
        let (dst, c) = loaded_const(x).unwrap();
        (env.insert(dst, c), seq![x], false)
    } else if plain_dst(x) is Some {
        keep_unknown(env, plain_dst(x).unwrap(), x)
    } else {
        match x {
            IrInstr::BoolNot { dst, src } => match known(env, src) {
                Some(ConstVal::Bool(b)) => fold_to_bool(env, dst, !b),
                _ => keep_unknown(env, dst, x),
            },
            IrInstr::QNot { dst, src } => match known(env, src) {
                Some(ConstVal::Quad(q)) => fold_to_quad(env, dst, spec_quad_not(q)),
                _ => keep_unknown(env, dst, x),
            },
            IrInstr::BoolAnd { dst, lhs, rhs } => fold_bool_bin(env, x, dst, lhs, rhs, true),
            IrInstr::BoolOr { dst, lhs, rhs } => fold_bool_bin(env, x, dst, lhs, rhs, false),
            IrInstr::QAnd { dst, lhs, rhs } => fold_quad_bin(env, x, dst, lhs, rhs, true),
            IrInstr::QOr { dst, lhs, rhs } => fold_quad_bin(env, x, dst, lhs, rhs, false),
            IrInstr::QImpl { dst, lhs, rhs } => match (known(env, lhs), known(env, rhs)) {
                (Some(ConstVal::Quad(a)), Some(ConstVal::Quad(b))) => fold_to_quad(
                    env,
                    dst,
                    spec_quad_impl(a, b),
                ),
                _ => keep_unknown(env, dst, x),
            },
            IrInstr::CmpEq { dst, lhs, rhs } => match (known(env, lhs), known(env, rhs)) {
                (Some(a), Some(b)) => fold_to_bool(env, dst, spec_const_eq(a, b)),
                _ => keep_unknown(env, dst, x),
            },
            IrInstr::CmpNe { dst, lhs, rhs } => match (known(env, lhs), known(env, rhs)) {
                (Some(a), Some(b)) => fold_to_bool(env, dst, !spec_const_eq(a, b)),
                _ => keep_unknown(env, dst, x),
            },
            IrInstr::AddF64 { dst, lhs, rhs } => fold_f64_bin(env, x, F64Op::Add, dst, lhs, rhs, fe),
            IrInstr::SubF64 { dst, lhs, rhs } => fold_f64_bin(env, x, F64Op::Sub, dst, lhs, rhs, fe),
            IrInstr::MulF64 { dst, lhs, rhs } => fold_f64_bin(env, x, F64Op::Mul, dst, lhs, rhs, fe),
            IrInstr::DivF64 { dst, lhs, rhs } => fold_f64_bin(env, x, F64Op::Div, dst, lhs, rhs, fe),
            _ => (env, seq![x], false),
        }
    }
}

/// Folds `s` from the start: the constants known at the end, the rewritten
/// instructions and the number of rewrites (capped at `u32::MAX`).
pub open spec fn fold_scan(
    s: Seq<IrInstr>,
    fe: spec_fn(F64Op, u64, u64) -> u64,
) -> (Map<u16, ConstVal>, Seq<IrInstr>, u32)
    decreases s.len(),
{
    if s.len() == 0 {
        (Map::empty(), Seq::empty(), 0)
    } else {
        let (env, out, n) = fold_scan(s.drop_last(), fe);
        let (env2, emitted, rewrote) = fold_step(env, s.last(), fe);
        (env2, out + emitted, if rewrote { sat_add_u32(n, 1) } else { n })
    }
}

/// The results that the function `f` gives for each operation, when its
/// contract pins them down.
pub open spec fn f64_results<F: Fn(F64Op, u64, u64) -> u64>(f: F) -> spec_fn(
    F64Op,
    u64,
    u64,
) -> u64 {
    |op: F64Op, a: u64, b: u64| choose|r: u64| f.ensures((op, a, b), r)
}

/// `f` may be called on any operands and gives one result for each.
pub open spec fn is_f64_evaluator<F: Fn(F64Op, u64, u64) -> u64>(f: F) -> bool {
    &&& forall|op: F64Op, a: u64, b: u64| f.requires((op, a, b))
    &&& forall|op: F64Op, a: u64, b: u64, r1: u64, r2: u64|
        f.ensures((op, a, b), r1) && f.ensures((op, a, b), r2) ==> r1 == r2
}

fn known_const(cst: &HashMap<u16, ConstVal>, r: u16) -> (v: Option<ConstVal>)
    ensures
        v == known(cst@, r),
{
    match cst.get(&r) {
        Some(c) => Some(*c),
        None => None,
    }
}

fn f64_bits_is_zero(x: u64) -> (r: bool)
    ensures
        r == f64_is_zero(x),
{
    (x & 0x7FFF_FFFF_FFFF_FFFFu64) == 0
}

fn f64_bits_is_nan(x: u64) -> (r: bool)
    ensures
        r == f64_is_nan(x),
{
    (x & 0x7FF0_0000_0000_0000u64) == 0x7FF0_0000_0000_0000u64 && (x & 0x000F_FFFF_FFFF_FFFFu64) != 0
}

/// Equality of two constants as the folder decides it.
pub fn const_eq(a: ConstVal, b: ConstVal) -> (r: bool)
    ensures
        r == spec_const_eq(a, b),
{
    match (a, b) {
        (ConstVal::Quad(x), ConstVal::Quad(y)) => x == y,
        (ConstVal::Bool(x), ConstVal::Bool(y)) => x == y,
        (ConstVal::F64(x), ConstVal::F64(y)) => !f64_bits_is_nan(x) && !f64_bits_is_nan(y) && (x == y || (
        f64_bits_is_zero(x) && f64_bits_is_zero(y))),
        (ConstVal::I32(x), ConstVal::I32(y)) => x == y,
        (ConstVal::Fx(x), ConstVal::Fx(y)) => x == y,
        _ => false,
    }
}

fn is_barrier_instr(x: &IrInstr) -> (r: bool)
    ensures
        r == is_barrier(*x),
{
    match x {
        IrInstr::Label { .. } => true,
        IrInstr::Jmp { .. } => true,
        IrInstr::JmpIf { .. } => true,
        IrInstr::Assert { .. } => true,
        IrInstr::Call { .. } => true,
        IrInstr::Ret { .. } => true,
        _ => false,
    }
}

fn loaded_const_of(x: &IrInstr) -> (r: Option<(u16, ConstVal)>)
    ensures
        r == loaded_const(*x),
{
    match x {
        IrInstr::LoadQ { dst, val } => Some((*dst, ConstVal::Quad(*val))),
        IrInstr::LoadBool { dst, val } => Some((*dst, ConstVal::Bool(*val))),
        IrInstr::LoadI32 { dst, val } => Some((*dst, ConstVal::I32(*val))),
        IrInstr::LoadU32 { dst, val } => Some((*dst, ConstVal::U32(*val))),
        IrInstr::LoadF64 { dst, val } => Some((*dst, ConstVal::F64(*val))),
        IrInstr::LoadFx { dst, val } => Some((*dst, ConstVal::Fx(*val))),
        _ => None,
    }
}

fn plain_dst_of(x: &IrInstr) -> (r: Option<u16>)
    ensures
        r == plain_dst(*x),
{
    match x {
        IrInstr::LoadText { dst, .. } => Some(*dst),
        IrInstr::AddFx { dst, .. } => Some(*dst),
        IrInstr::SubFx { dst, .. } => Some(*dst),
        IrInstr::MulFx { dst, .. } => Some(*dst),
        IrInstr::DivFx { dst, .. } => Some(*dst),
        IrInstr::MakeTuple { dst, .. } => Some(*dst),
        IrInstr::MakeRecord { dst, .. } => Some(*dst),
        IrInstr::MakeAdt { dst, .. } => Some(*dst),
        IrInstr::AdtTag { dst, .. } => Some(*dst),
        IrInstr::AdtGet { dst, .. } => Some(*dst),
        IrInstr::RecordGet { dst, .. } => Some(*dst),
        IrInstr::TupleGet { dst, .. } => Some(*dst),
        IrInstr::LoadVar { dst, .. } => Some(*dst),
        IrInstr::CmpI32Lt { dst, .. } => Some(*dst),
        IrInstr::CmpI32Le { dst, .. } => Some(*dst),
        IrInstr::AddI32 { dst, .. } => Some(*dst),
        IrInstr::GateRead { dst, .. } => Some(*dst),
        IrInstr::StateQuery { dst, .. } => Some(*dst),
        IrInstr::ClockRead { dst } => Some(*dst),
        _ => None,
    }
}

fn emit_bool(cst: &mut HashMap<u16, ConstVal>, out: &mut Vec<IrInstr>, dst: u16, v: bool)
    ensures
        final(cst)@ == fold_to_bool(old(cst)@, dst, v).0,
        final(out)@ == old(out)@ + fold_to_bool(old(cst)@, dst, v).1,
{
    let _ = cst.insert(dst, ConstVal::Bool(v));
    out.push(IrInstr::LoadBool { dst, val: v });
    assert(out@ =~= old(out)@ + fold_to_bool(old(cst)@, dst, v).1);
}

fn emit_quad(cst: &mut HashMap<u16, ConstVal>, out: &mut Vec<IrInstr>, dst: u16, v: QuadVal)
    ensures
        final(cst)@ == fold_to_quad(old(cst)@, dst, v).0,
        final(out)@ == old(out)@ + fold_to_quad(old(cst)@, dst, v).1,
{
    let _ = cst.insert(dst, ConstVal::Quad(v));
    out.push(IrInstr::LoadQ { dst, val: v });
    assert(out@ =~= old(out)@ + fold_to_quad(old(cst)@, dst, v).1);
}

fn emit_f64(cst: &mut HashMap<u16, ConstVal>, out: &mut Vec<IrInstr>, dst: u16, v: u64)
    ensures
        final(cst)@ == fold_to_f64(old(cst)@, dst, v).0,
        final(out)@ == old(out)@ + fold_to_f64(old(cst)@, dst, v).1,
{
    let _ = cst.insert(dst, ConstVal::F64(v));
    out.push(IrInstr::LoadF64 { dst, val: v });
    assert(out@ =~= old(out)@ + fold_to_f64(old(cst)@, dst, v).1);
}

fn keep_forgetting(cst: &mut HashMap<u16, ConstVal>, out: &mut Vec<IrInstr>, dst: u16, x: IrInstr)
    ensures
        final(cst)@ == keep_unknown(old(cst)@, dst, x).0,
        final(out)@ == old(out)@ + keep_unknown(old(cst)@, dst, x).1,
{
    let _ = cst.remove(&dst);
    out.push(x);
    assert(out@ =~= old(out)@ + keep_unknown(old(cst)@, dst, x).1);
}

fn holds_bool(c: Option<ConstVal>, v: bool) -> (r: bool)
    ensures
        r == (c == Some(ConstVal::Bool(v))),
{
    match c {
        Some(ConstVal::Bool(b)) => b == v,
        _ => false,
    }
}

fn holds_quad(c: Option<ConstVal>, v: QuadVal) -> (r: bool)
    ensures
        r == (c == Some(ConstVal::Quad(v))),
{
    match c {
        Some(ConstVal::Quad(q)) => q == v,
        _ => false,
    }
}

fn fold_bool_bin_instr(
    cst: &mut HashMap<u16, ConstVal>,
    out: &mut Vec<IrInstr>,
    x: IrInstr,
    dst: u16,
    lhs: u16,
    rhs: u16,
    is_and: bool,
) -> (rewrote: bool)
    ensures
        ({
            let (env2, emitted, rw) = fold_bool_bin(old(cst)@, x, dst, lhs, rhs, is_and);
            final(cst)@ == env2 && final(out)@ == old(out)@ + emitted && rewrote == rw
        }),
{
    let a = known_const(cst, lhs);
    let b = known_const(cst, rhs);
    if let (Some(ConstVal::Bool(va)), Some(ConstVal::Bool(vb))) = (a, b) {
        emit_bool(cst, out, dst, if is_and { va && vb } else { va || vb });
        return true;
    }
    let unit = is_and;
    let zero = !is_and;
    if dst == lhs && holds_bool(b, unit) {
        assert(out@ =~= old(out)@ + Seq::<IrInstr>::empty());
        return true;
    }
    if dst == rhs && holds_bool(a, unit) {
        assert(out@ =~= old(out)@ + Seq::<IrInstr>::empty());
        return true;
    }
    if holds_bool(a, zero) || holds_bool(b, zero) {
        emit_bool(cst, out, dst, zero);
        return true;
    }
    keep_forgetting(cst, out, dst, x);
    false
}

fn fold_quad_bin_instr(
    cst: &mut HashMap<u16, ConstVal>,
    out: &mut Vec<IrInstr>,
    x: IrInstr,
    dst: u16,
    lhs: u16,
    rhs: u16,
    is_and: bool,
) -> (rewrote: bool)
    ensures
        ({
            let (env2, emitted, rw) = fold_quad_bin(old(cst)@, x, dst, lhs, rhs, is_and);
            final(cst)@ == env2 && final(out)@ == old(out)@ + emitted && rewrote == rw
        }),
{
    let a = known_const(cst, lhs);
    let b = known_const(cst, rhs);
    if let (Some(ConstVal::Quad(qa)), Some(ConstVal::Quad(qb))) = (a, b) {
        let v = if is_and { quad_and(qa, qb) } else { quad_or(qa, qb) };
        emit_quad(cst, out, dst, v);
        return true;
    }
    let unit = if is_and { QuadVal::S } else { QuadVal::N };
    let zero = if is_and { QuadVal::N } else { QuadVal::S };
    if dst == lhs && holds_quad(b, unit) {
        assert(out@ =~= old(out)@ + Seq::<IrInstr>::empty());
        return true;
    }
    if dst == rhs && holds_quad(a, unit) {
        assert(out@ =~= old(out)@ + Seq::<IrInstr>::empty());
        return true;
    }
    if holds_quad(a, zero) || holds_quad(b, zero) {
        emit_quad(cst, out, dst, zero);
        return true;
    }
    keep_forgetting(cst, out, dst, x);
    false
}

fn f64_unit_rhs(op: F64Op, c: Option<ConstVal>) -> (r: bool)
    ensures
        r == (c matches Some(ConstVal::F64(v)) && (if op is Add || op is Sub {
            f64_is_zero(v)
        } else {
            v == F64_ONE_BITS
        })),
{
    match c {
        Some(ConstVal::F64(v)) => match op {
            F64Op::Add => f64_bits_is_zero(v),
            F64Op::Sub => f64_bits_is_zero(v),
            _ => v == F64_ONE_BITS,
        },
        _ => false,
    }
}

fn fold_f64_bin_instr<F: Fn(F64Op, u64, u64) -> u64>(
    cst: &mut HashMap<u16, ConstVal>,
    out: &mut Vec<IrInstr>,
    x: IrInstr,
    op: F64Op,
    dst: u16,
    lhs: u16,
    rhs: u16,
    f64_eval: &F,
) -> (rewrote: bool)
    requires
        is_f64_evaluator(*f64_eval),
    ensures
        ({
            let (env2, emitted, rw) = fold_f64_bin(
                old(cst)@,
                x,
                op,
                dst,
                lhs,
                rhs,
                f64_results(*f64_eval),
            );
            final(cst)@ == env2 && final(out)@ == old(out)@ + emitted && rewrote == rw
        }),
{
    let a = known_const(cst, lhs);
    let b = known_const(cst, rhs);
    if let (Some(ConstVal::F64(va)), Some(ConstVal::F64(vb))) = (a, b) {
        let is_div = match op {
            F64Op::Div => true,
            _ => false,
        };
        if !(is_div && f64_bits_is_zero(vb)) {
            let v = f64_eval(op, va, vb);
            proof {
                assert(f64_eval.ensures((op, va, vb), v));
                assert(f64_results(*f64_eval)(op, va, vb) == v);
            }
            emit_f64(cst, out, dst, v);
            return true;
        }
    }
    let ghost unit_rhs = |v: u64|
        if op is Add || op is Sub {
            f64_is_zero(v)
        } else {
            v == F64_ONE_BITS
        };
    let unit_lhs_applies = match op {
        F64Op::Add => true,
        F64Op::Mul => true,
        _ => false,
    };
    if dst == lhs && f64_unit_rhs(op, b) {
        assert(is_f64_with(old(cst)@, rhs, unit_rhs));
        assert(out@ =~= old(out)@ + Seq::<IrInstr>::empty());
        return true;
    }
    if unit_lhs_applies && dst == rhs && f64_unit_rhs(op, a) {
        assert(is_f64_with(old(cst)@, lhs, unit_rhs));
        assert(out@ =~= old(out)@ + Seq::<IrInstr>::empty());
        return true;
    }
    keep_forgetting(cst, out, dst, x);
    false
}

fn fold_one<F: Fn(F64Op, u64, u64) -> u64>(
    cst: &mut HashMap<u16, ConstVal>,
    out: &mut Vec<IrInstr>,
    instr: IrInstr,
    f64_eval: &F,
) -> (rewrote: bool)
    requires
        is_f64_evaluator(*f64_eval),
    ensures
        ({
            let (env2, emitted, rw) = fold_step(old(cst)@, instr, f64_results(*f64_eval));
            final(cst)@ == env2 && final(out)@ == old(out)@ + emitted && rewrote == rw
        }),
{
    if is_barrier_instr(&instr) {
        cst.clear();
        out.push(instr);
        assert(out@ =~= old(out)@ + seq![instr]);
        return false;
    }
    if let Some((dst, c)) = loaded_const_of(&instr) {
        let _ = cst.insert(dst, c);
        out.push(instr);
        assert(out@ =~= old(out)@ + seq![instr]);
        return false;
    }
    if let Some(dst) = plain_dst_of(&instr) {
        keep_forgetting(cst, out, dst, instr);
        return false;
    }
    match instr {
        IrInstr::BoolNot { dst, src } => match known_const(cst, src) {
            Some(ConstVal::Bool(b)) => {
                emit_bool(cst, out, dst, !b);
                true
            },
            _ => {
                keep_forgetting(cst, out, dst, instr);
                false
            },
        },
        IrInstr::QNot { dst, src } => match known_const(cst, src) {
            Some(ConstVal::Quad(q)) => {
                emit_quad(cst, out, dst, quad_not(q));
                true
            },
            _ => {
                keep_forgetting(cst, out, dst, instr);
                false
            },
        },
        IrInstr::BoolAnd { dst, lhs, rhs } => fold_bool_bin_instr(cst, out, instr, dst, lhs, rhs, true),
        IrInstr::BoolOr { dst, lhs, rhs } => fold_bool_bin_instr(cst, out, instr, dst, lhs, rhs, false),
        IrInstr::QAnd { dst, lhs, rhs } => fold_quad_bin_instr(cst, out, instr, dst, lhs, rhs, true),
        IrInstr::QOr { dst, lhs, rhs } => fold_quad_bin_instr(cst, out, instr, dst, lhs, rhs, false),
        IrInstr::QImpl { dst, lhs, rhs } => match (known_const(cst, lhs), known_const(cst, rhs)) {
            (Some(ConstVal::Quad(a)), Some(ConstVal::Quad(b))) => {
                emit_quad(cst, out, dst, quad_impl(a, b));
                true
            },
            _ => {
                keep_forgetting(cst, out, dst, instr);
                false
            },
        },
        IrInstr::CmpEq { dst, lhs, rhs } => match (known_const(cst, lhs), known_const(cst, rhs)) {
            (Some(a), Some(b)) => {
                emit_bool(cst, out, dst, const_eq(a, b));
                true
            },
            _ => {
                keep_forgetting(cst, out, dst, instr);
                false
            },
        },
        IrInstr::CmpNe { dst, lhs, rhs } => match (known_const(cst, lhs), known_const(cst, rhs)) {
            (Some(a), Some(b)) => {
                emit_bool(cst, out, dst, !const_eq(a, b));
                true
            },
            _ => {
                keep_forgetting(cst, out, dst, instr);
                false
            },
        },
        IrInstr::AddF64 { dst, lhs, rhs } => fold_f64_bin_instr(cst, out, instr, F64Op::Add, dst, lhs, rhs, f64_eval),
        IrInstr::SubF64 { dst, lhs, rhs } => fold_f64_bin_instr(cst, out, instr, F64Op::Sub, dst, lhs, rhs, f64_eval),
        IrInstr::MulF64 { dst, lhs, rhs } => fold_f64_bin_instr(cst, out, instr, F64Op::Mul, dst, lhs, rhs, f64_eval),
        IrInstr::DivF64 { dst, lhs, rhs } => fold_f64_bin_instr(cst, out, instr, F64Op::Div, dst, lhs, rhs, f64_eval),
        other => {
            out.push(other);
            assert(out@ =~= old(out)@ + seq![other]);
            false
        },
    }
}

/// Folds the constants and identities of one function body; `f64_eval`
/// computes `f64` operations on bit patterns. Returns the rewrite count.
pub fn fold_constants_and_identities<F: Fn(F64Op, u64, u64) -> u64>(
    instrs: &mut Vec<IrInstr>,
    f64_eval: &F,
) -> (rewrites: u32)
    requires
        is_f64_evaluator(*f64_eval),
    ensures
        final(instrs)@ == fold_scan(old(instrs)@, f64_results(*f64_eval)).1,
        rewrites == fold_scan(old(instrs)@, f64_results(*f64_eval)).2,
{
    let mut input: Vec<IrInstr> = Vec::new();
    std::mem::swap(&mut input, instrs);
    let ghost s = input@;
    let ghost fe = f64_results(*f64_eval);
    let mut out: Vec<IrInstr> = Vec::new();
    let mut cst: HashMap<u16, ConstVal> = HashMap::new();
    let mut rewrites: u32 = 0;
    for instr in it: input.into_iter()
        invariant
            it.seq() == s,
            fe == f64_results(*f64_eval),
            is_f64_evaluator(*f64_eval),
            (cst@, out@, rewrites) == fold_scan(s.take(it.index() as int), fe),
    {
        let ghost k = it.index() as int;
        proof {
            assert(s.take(k + 1).drop_last() =~= s.take(k));
            assert(s.take(k + 1).last() == instr);
        }
        if fold_one(&mut cst, &mut out, instr, f64_eval) {
            rewrites = rewrites.saturating_add(1);
        }
    }
    assert(s.take(s.len() as int) =~= s);
    *instrs = out;
    rewrites
}

/// The rewrite count of folding the functions `fs`, one after the other.
pub open spec fn crystalfold_rewrites(
    fs: Seq<crate::ir::IrFunction>,
    fe: spec_fn(F64Op, u64, u64) -> u64,
) -> u32
    decreases fs.len(),
{
    if fs.len() == 0 {
        0
    } else {
        sat_add_u32(crystalfold_rewrites(fs.drop_last(), fe), fold_scan(fs.last().instrs@, fe).2)
    }
}

impl CrystalFoldPass {
    /// The pass's name.
    pub fn name(&self) -> (n: &'static str)
        ensures
            n@ == "CrystalFold"@,
    {
        "CrystalFold"
    }

    /// The pass's version.
    pub fn version(&self) -> (v: u32)
        ensures
            v == 1,
    {
        1
    }

    /// Folds every function of `ir`; `f64_eval` computes `f64` operations on
    /// bit patterns.
    pub fn run<F: Fn(F64Op, u64, u64) -> u64>(&self, ir: &mut IrModule, f64_eval: &F) -> (r: OptReport)
        requires
            is_f64_evaluator(*f64_eval),
        ensures
            final(ir).functions@.len() == old(ir).functions@.len(),
            forall|k: int|
                0 <= k < final(ir).functions@.len() ==> (#[trigger] final(ir).functions@[k]).name
                    == old(ir).functions@[k].name && final(ir).functions@[k].instrs@ == fold_scan(
                    old(ir).functions@[k].instrs@,
                    f64_results(*f64_eval),
                ).1,
            r.num_rewrites == crystalfold_rewrites(old(ir).functions@, f64_results(*f64_eval)),
            r.changed == (r.num_rewrites > 0),
    {
        let mut input: Vec<crate::ir::IrFunction> = Vec::new();
        std::mem::swap(&mut input, &mut ir.functions);
        let ghost fs = input@;
        let ghost fe = f64_results(*f64_eval);
        let mut out: Vec<crate::ir::IrFunction> = Vec::new();
        let mut rewrites: u32 = 0;
        for func in it: input.into_iter()
            invariant
                it.seq() == fs,
                fe == f64_results(*f64_eval),
                is_f64_evaluator(*f64_eval),
                out@.len() == it.index(),
                forall|k: int|
                    0 <= k < out@.len() ==> (#[trigger] out@[k]).name == fs[k].name
                        && out@[k].instrs@ == fold_scan(fs[k].instrs@, fe).1,
                rewrites == crystalfold_rewrites(fs.take(it.index() as int), fe),
        {
            let ghost k = it.index() as int;
            let crate::ir::IrFunction { name, instrs } = func;
            let mut instrs = instrs;
            let c = fold_constants_and_identities(&mut instrs, f64_eval);
            rewrites = rewrites.saturating_add(c);
            proof {
                assert(fs.take(k + 1).drop_last() =~= fs.take(k));
                assert(fs.take(k + 1).last() == fs[k]);
            }
            out.push(crate::ir::IrFunction { name, instrs });
        }
        assert(fs.take(fs.len() as int) =~= fs);
        ir.functions = out;
        OptReport { changed: rewrites > 0, num_rewrites: rewrites }
    }
}

/// The bodies of `fs` after folding, in order.
pub open spec fn folded_bodies(fs: Seq<crate::ir::IrFunction>, fe: spec_fn(F64Op, u64, u64) -> u64) -> Seq<
    Seq<IrInstr>,
> {
    fs.map_values(|f: crate::ir::IrFunction| fold_scan(f.instrs@, fe).1)
}

/// Runs the default pipeline over `functions` in place: CrystalFold, then
/// the structural cleanup of what it left; the report merges both.
pub fn run_default_opt_passes<F: Fn(F64Op, u64, u64) -> u64>(
    functions: &mut Vec<crate::ir::IrFunction>,
    f64_eval: &F,
) -> (r: OptReport)
    requires
        is_f64_evaluator(*f64_eval),
    ensures
        final(functions)@.len() == old(functions)@.len(),
        forall|k: int|
            0 <= k < final(functions)@.len() ==> (#[trigger] final(functions)@[k]).name == old(
                functions,
            )@[k].name && final(functions)@[k].instrs@ == cleaned(
                fold_scan(old(functions)@[k].instrs@, f64_results(*f64_eval)).1,
            ),
        r.num_rewrites == sat_add_u32(
            crystalfold_rewrites(old(functions)@, f64_results(*f64_eval)),
            cleanup_rewrites(folded_bodies(old(functions)@, f64_results(*f64_eval))),
        ),
        r.changed == (crystalfold_rewrites(old(functions)@, f64_results(*f64_eval)) > 0
            || cleanup_rewrites(folded_bodies(old(functions)@, f64_results(*f64_eval))) != 0),
{
    let ghost fs = functions@;
    let ghost fe = f64_results(*f64_eval);
    let mut taken: Vec<crate::ir::IrFunction> = Vec::new();
    std::mem::swap(&mut taken, functions);
    let mut module = IrModule { functions: taken };
    let mut report = OptReport::default();
    let fold = CrystalFoldPass;
    report.merge(fold.run(&mut module, f64_eval));
    assert(bodies_of(module.functions@) =~= folded_bodies(fs, fe));
    let cleanup = StructuralCleanupPass;
    report.merge(cleanup.run(&mut module));
    *functions = module.functions;
    report
}

#[verifier::rlimit(60)]
#[verifier::spinoff_prover]
proof fn lemma_fold_step_stable(
    env: Map<u16, ConstVal>,
    x: IrInstr,
    fe: spec_fn(F64Op, u64, u64) -> u64,
)
    ensures
        fold_step(env, x, fe).1.len() <= 1,
        fold_step(env, x, fe).1.len() == 1 ==> fold_step(env, fold_step(env, x, fe).1[0], fe) == (
            fold_step(env, x, fe).0,
            fold_step(env, x, fe).1,
            false,
        ),
{
}

/// Folding is idempotent: folding the folded code again leaves it as it is,
/// ends with the same known constants and makes no rewrite.
pub proof fn lemma_fold_idempotent(s: Seq<IrInstr>, fe: spec_fn(F64Op, u64, u64) -> u64)
    ensures
        fold_scan(fold_scan(s, fe).1, fe) == (fold_scan(s, fe).0, fold_scan(s, fe).1, 0u32),
    decreases s.len(),
{
    if s.len() > 0 {
        lemma_fold_idempotent(s.drop_last(), fe);
        let (env, out, n) = fold_scan(s.drop_last(), fe);
        let (env2, em, rw) = fold_step(env, s.last(), fe);
        lemma_fold_step_stable(env, s.last(), fe);
        let out2 = out + em;
        if em.len() == 0 {
            assert(out2 =~= out);
        } else {
            assert(out2.drop_last() =~= out);
            assert(out2.last() == em[0]);
            assert(em =~= seq![em[0]]);
        }
    }
}

/// Running the pass on a module it already folded rewrites nothing and
/// leaves every function as it is.
pub proof fn lemma_crystalfold_rerun_is_quiet(
    fs: Seq<crate::ir::IrFunction>,
    gs: Seq<crate::ir::IrFunction>,
    fe: spec_fn(F64Op, u64, u64) -> u64,
)
    requires
        gs.len() == fs.len(),
        forall|k: int| 0 <= k < gs.len() ==> (#[trigger] gs[k]).instrs@ == fold_scan(fs[k].instrs@, fe).1,
    ensures
        crystalfold_rewrites(gs, fe) == 0,
        forall|k: int| 0 <= k < gs.len() ==> fold_scan((#[trigger] gs[k]).instrs@, fe).1 == gs[k].instrs@,
    decreases gs.len(),
{
    assert forall|k: int| 0 <= k < gs.len() implies fold_scan((#[trigger] gs[k]).instrs@, fe).1 == gs[k].instrs@ by {
        lemma_fold_idempotent(fs[k].instrs@, fe);
    }
    if gs.len() > 0 {
        let n = (gs.len() - 1) as int;
        lemma_crystalfold_rerun_is_quiet(fs.drop_last(), gs.drop_last(), fe);
        lemma_fold_idempotent(fs[n].instrs@, fe);
        assert(gs.last() == gs[n]);
    }
}

/// Folding a quad operation on known constants loads the value that the
/// machine's quad operations compute (`spec_quad_and`, `spec_quad_or`,
/// `spec_quad_impl`, `spec_quad_not`, the functions its step model uses),
/// and the folder's unit and zero rules agree with them.
pub proof fn lemma_quad_fold_matches_machine(
    env: Map<u16, ConstVal>,
    dst: u16,
    lhs: u16,
    rhs: u16,
    a: QuadVal,
    b: QuadVal,
    fe: spec_fn(F64Op, u64, u64) -> u64,
)
    requires
        known(env, lhs) == Some(ConstVal::Quad(a)),
        known(env, rhs) == Some(ConstVal::Quad(b)),
    ensures
        fold_step(env, IrInstr::QAnd { dst, lhs, rhs }, fe).1 == seq![IrInstr::LoadQ { dst, val: spec_quad_and(a, b) }],
        fold_step(env, IrInstr::QOr { dst, lhs, rhs }, fe).1 == seq![IrInstr::LoadQ { dst, val: spec_quad_or(a, b) }],
        fold_step(env, IrInstr::QImpl { dst, lhs, rhs }, fe).1 == seq![IrInstr::LoadQ { dst, val: spec_quad_impl(a, b) }],
        fold_step(env, IrInstr::QNot { dst, src: lhs }, fe).1 == seq![IrInstr::LoadQ { dst, val: spec_quad_not(a) }],
        spec_quad_and(a, QuadVal::S) == a && spec_quad_and(QuadVal::S, a) == a,
        spec_quad_and(a, QuadVal::N) == QuadVal::N && spec_quad_and(QuadVal::N, a) == QuadVal::N,
        spec_quad_or(a, QuadVal::N) == a && spec_quad_or(QuadVal::N, a) == a,
        spec_quad_or(a, QuadVal::S) == QuadVal::S && spec_quad_or(QuadVal::S, a) == QuadVal::S,
{
    crate::quad::lemma_quad_units(a);
}

/// Law: folding the boolean operations keeps their meaning. With both
/// operands known, `BoolAnd` becomes a load of `a && b`, `BoolOr` a load of
/// `a || b`, `CmpEq` and `CmpNe` loads of `a == b` and `a != b`; with one
/// operand known to be the absorbing value (`false` for `BoolAnd`, `true` for
/// `BoolOr`), the result is that value whatever the other operand holds.
pub proof fn lemma_fold_bool_meaning(
    env: Map<u16, ConstVal>,
    dst: u16,
    lhs: u16,
    rhs: u16,
    a: bool,
    b: bool,
    fe: spec_fn(F64Op, u64, u64) -> u64,
)
    ensures
        known(env, lhs) == Some(ConstVal::Bool(a)) && known(env, rhs) == Some(ConstVal::Bool(b)) ==> {
            &&& fold_step(env, IrInstr::BoolAnd { dst, lhs, rhs }, fe).1 == seq![IrInstr::LoadBool { dst, val: a && b }]
            &&& fold_step(env, IrInstr::BoolOr { dst, lhs, rhs }, fe).1 == seq![IrInstr::LoadBool { dst, val: a || b }]
            &&& fold_step(env, IrInstr::CmpEq { dst, lhs, rhs }, fe).1 == seq![IrInstr::LoadBool { dst, val: a == b }]
            &&& fold_step(env, IrInstr::CmpNe { dst, lhs, rhs }, fe).1 == seq![IrInstr::LoadBool { dst, val: a != b }]
        },
        known(env, lhs) == Some(ConstVal::Bool(a)) ==> fold_step(env, IrInstr::BoolNot { dst, src: lhs }, fe).1
            == seq![IrInstr::LoadBool { dst, val: !a }],
        known(env, lhs) == Some(ConstVal::Bool(false)) ==> fold_step(env, IrInstr::BoolAnd { dst, lhs, rhs }, fe).1
            == seq![IrInstr::LoadBool { dst, val: false }],
        known(env, rhs) == Some(ConstVal::Bool(false)) ==> fold_step(env, IrInstr::BoolAnd { dst, lhs, rhs }, fe).1
            == seq![IrInstr::LoadBool { dst, val: false }],
        known(env, lhs) == Some(ConstVal::Bool(true)) ==> fold_step(env, IrInstr::BoolOr { dst, lhs, rhs }, fe).1
            == seq![IrInstr::LoadBool { dst, val: true }],
        known(env, rhs) == Some(ConstVal::Bool(true)) ==> fold_step(env, IrInstr::BoolOr { dst, lhs, rhs }, fe).1
            == seq![IrInstr::LoadBool { dst, val: true }],
{
}

/// Law: folding the integer comparisons keeps their meaning: with both
/// operands known `I32` constants, `CmpEq` loads `a == b` and `CmpNe` loads
/// `a != b`.
pub proof fn lemma_fold_i32_compare_meaning(
    env: Map<u16, ConstVal>,
    dst: u16,
    lhs: u16,
    rhs: u16,
    a: i32,
    b: i32,
    fe: spec_fn(F64Op, u64, u64) -> u64,
)
    requires
        known(env, lhs) == Some(ConstVal::I32(a)),
        known(env, rhs) == Some(ConstVal::I32(b)),
    ensures
        fold_step(env, IrInstr::CmpEq { dst, lhs, rhs }, fe).1 == seq![IrInstr::LoadBool { dst, val: a == b }],
        fold_step(env, IrInstr::CmpNe { dst, lhs, rhs }, fe).1 == seq![IrInstr::LoadBool { dst, val: a != b }],
{
}

/// Law: folding an `f64` operation on two known constants loads what the
/// evaluator gives for the operation with the operands in order, `lhs`
/// first; a division by a known zero is left to run.
pub proof fn lemma_fold_f64_meaning(
    env: Map<u16, ConstVal>,
    dst: u16,
    lhs: u16,
    rhs: u16,
    a: u64,
    b: u64,
    fe: spec_fn(F64Op, u64, u64) -> u64,
)
    requires
        known(env, lhs) == Some(ConstVal::F64(a)),
        known(env, rhs) == Some(ConstVal::F64(b)),
    ensures
        fold_step(env, IrInstr::AddF64 { dst, lhs, rhs }, fe).1 == seq![IrInstr::LoadF64 { dst, val: fe(F64Op::Add, a, b) }],
        fold_step(env, IrInstr::SubF64 { dst, lhs, rhs }, fe).1 == seq![IrInstr::LoadF64 { dst, val: fe(F64Op::Sub, a, b) }],
        fold_step(env, IrInstr::MulF64 { dst, lhs, rhs }, fe).1 == seq![IrInstr::LoadF64 { dst, val: fe(F64Op::Mul, a, b) }],
        !f64_is_zero(b) ==> fold_step(env, IrInstr::DivF64 { dst, lhs, rhs }, fe).1 == seq![
            IrInstr::LoadF64 { dst, val: fe(F64Op::Div, a, b) },
        ],
        f64_is_zero(b) ==> fold_step(env, IrInstr::DivF64 { dst, lhs, rhs }, fe).1 == seq![IrInstr::DivF64 { dst, lhs, rhs }],
{
    assert((b & 0x7FFF_FFFF_FFFF_FFFFu64) == 0 ==> b != 0x3FF0_0000_0000_0000u64) by (bit_vector);
}

} // verus!
