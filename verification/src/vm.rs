//! The SemCode virtual machine: runtime values, frames, the checks made on
//! each function image, and the step function that executes one
//! instruction.
//!
//! Tuples are immutable; each one lives in the machine's tuple store and a
//! value refers to it by its index. Every tuple refers only to tuples made
//! before it.
use crate::bytecode::{decode_instr, decodes_to, encode, lemma_decode_unique, same_instr, Instr};
use crate::passes::crystalfold::{f64_results, is_f64_evaluator, F64Op};
use crate::quad::{
    quad_and, quad_from_bits, quad_impl, quad_not, quad_or, spec_quad_and, spec_quad_impl, spec_quad_not,
    spec_quad_or, QuadVal,
};
use crate::semcode_format::{opcode_of_byte, Opcode, SemcodeFormatError};
use crate::text::{decimal, hex2, push_decimal, push_hex2};
use std::collections::{HashMap, HashSet};
use crate::runtime_core::{
    intern_result, ExecutionConfig, QuotaExceeded, QuotaKind, RuntimeQuotas, RuntimeSymbolTable, RuntimeTrap, SymbolId,
};
use vstd::prelude::*;

verus! {

/// A runtime value. An `f64` travels as its bit pattern; a tuple as the
/// index of its items in the tuple store.
#[derive(Debug, Clone, Copy, PartialEq, Eq, Structural)]
pub enum Value {
    Quad(QuadVal),
    Bool(bool),
    I32(i32),
    F64(u64),
    U32(u32),
    Fx(i32),
    Tuple(usize),
    Unit,
}

/// Why a run stopped with an error.
#[derive(Debug, Clone, PartialEq, Eq)]
pub enum RuntimeError {
    BadHeader,
    UnsupportedBytecodeVersion { found: String, supported: String },
    BadFormat(String),
    UnknownFunction(String),
    InvalidJumpAddress { func: String, addr: usize },
    TypeMismatchRuntime(String),
    StackUnderflow,
    StackOverflow,
    QuotaExceeded(QuotaExceeded),
    VerifierRejected(crate::verify_report::RejectReport),
    UnknownVariable(String),
    InvalidStringId(u16),
    Trap(RuntimeTrap),
}

/// A debug-table entry: the instruction at `pc` comes from `line:col`.
#[derive(Debug, Clone, Copy, PartialEq, Eq, Structural)]
pub struct DebugSymbol {
    pub pc: usize,
    pub line: u32,
    pub col: u16,
}

/// A parsed function image: its string table and the symbols they intern
/// to, its debug table, and its code, whose instructions start at
/// `instr_start`.
#[derive(Debug, Clone)]
pub struct FunctionBytecode {
    pub name: String,
    pub strings: Vec<String>,
    pub symbol_ids: Vec<SymbolId>,
    pub debug_symbols: Vec<DebugSymbol>,
    pub code: Vec<u8>,
    pub instr_start: usize,
}

/// `t` refers only to tuples stored before index `bound`.
pub open spec fn refs_below(items: Seq<Value>, bound: int) -> bool {
    forall|k: int| 0 <= k < items.len() ==> (#[trigger] items[k] matches Value::Tuple(h) ==> h < bound)
}

/// Every tuple of the store refers only to earlier tuples.
pub open spec fn store_wf(tuples: Seq<Seq<Value>>) -> bool {
    forall|t: int| 0 <= t < tuples.len() ==> refs_below(#[trigger] tuples[t], t)
}

/// The value refers only to stored tuples.
pub open spec fn value_in_store(v: Value, tuples: Seq<Seq<Value>>) -> bool {
    v matches Value::Tuple(h) ==> h < tuples.len()
}

/// The depth measure of a value: one past its tuple index, 0 for scalars.
pub open spec fn rank(v: Value) -> int {
    match v {
        Value::Tuple(h) => h + 1,
        _ => 0,
    }
}

/// Structural equality as `CmpEq` decides it: `Some(b)` for a comparable
/// pair, `None` when the kinds differ. Tuples compare item by item and stop
/// at the first unequal pair.
pub open spec fn spec_value_eq(tuples: Seq<Seq<Value>>, a: Value, b: Value) -> Option<bool>
    decreases rank(a) + rank(b), 1int,
    when store_wf(tuples) && value_in_store(a, tuples) && value_in_store(b, tuples)
{
    match (a, b) {
        (Value::Quad(x), Value::Quad(y)) => Some(x == y),
        (Value::Bool(x), Value::Bool(y)) => Some(x == y),
        (Value::I32(x), Value::I32(y)) => Some(x == y),
        (Value::F64(x), Value::F64(y)) => Some(crate::passes::crystalfold::f64_bits_eq(x, y)),
        (Value::U32(x), Value::U32(y)) => Some(x == y),
        (Value::Fx(x), Value::Fx(y)) => Some(x == y),
        (Value::Unit, Value::Unit) => Some(true),
        (Value::Tuple(h1), Value::Tuple(h2)) => if tuples[h1 as int].len() != tuples[h2 as int].len() {
            Some(false)
        } else {
            spec_items_eq(tuples, h1 as int, h2 as int, 0)
        },
        _ => None,
    }
}

/// Compares items `k..` of stored tuples `h1` and `h2`, which have equal lengths.
pub open spec fn spec_items_eq(tuples: Seq<Seq<Value>>, h1: int, h2: int, k: int) -> Option<bool>
    decreases h1 + 1 + h2 + 1, 0int, tuples[h1].len() - k,
    when store_wf(tuples) && 0 <= h1 < tuples.len() && 0 <= h2 < tuples.len() && 0 <= k
        && tuples[h1].len() == tuples[h2].len()
{
    if k >= tuples[h1].len() {
        Some(true)
    } else {
        match spec_value_eq(tuples, tuples[h1][k], tuples[h2][k]) {
            Some(true) => spec_items_eq(tuples, h1, h2, k + 1),
            other => other,
        }
    }
}

/// The tuple store seen as sequences of values.
pub open spec fn store_view(tuples: Seq<Vec<Value>>) -> Seq<Seq<Value>> {
    Seq::new(tuples.len(), |t: int| tuples[t]@)
}

/// A runtime type error with message `msg`.
pub open spec fn is_type_mismatch(e: RuntimeError, msg: Seq<char>) -> bool {
    e matches RuntimeError::TypeMismatchRuntime(m) && m@ == msg
}

fn type_mismatch(msg: &str) -> (e: RuntimeError)
    ensures
        is_type_mismatch(e, msg@),
{
    RuntimeError::TypeMismatchRuntime(String::from_str(msg))
}

fn f64_bits_equal(x: u64, y: u64) -> (r: bool)
    ensures
        r == crate::passes::crystalfold::f64_bits_eq(x, y),
{
    crate::passes::crystalfold::const_eq(
        crate::passes::crystalfold::ConstVal::F64(x),
        crate::passes::crystalfold::ConstVal::F64(y),
    )
}

/// `CmpEq` on two values: `Ok` with the answer for values of the same kind,
/// a type mismatch otherwise.
pub fn value_eq(tuples: &Vec<Vec<Value>>, a: Value, b: Value) -> (r: Result<bool, RuntimeError>)
    requires
        store_wf(store_view(tuples@)),
        value_in_store(a, store_view(tuples@)),
        value_in_store(b, store_view(tuples@)),
    ensures
        match spec_value_eq(store_view(tuples@), a, b) {
            Some(x) => r == Ok::<bool, RuntimeError>(x),
            None => r matches Err(e) && is_type_mismatch(
                e,
                "CmpEq/CmpNe operands must have same runtime type"@,
            ),
        },
    decreases rank(a) + rank(b), 1int,
{
    match (a, b) {
        (Value::Quad(x), Value::Quad(y)) => Ok(x == y),
        (Value::Bool(x), Value::Bool(y)) => Ok(x == y),
        (Value::I32(x), Value::I32(y)) => Ok(x == y),
        (Value::F64(x), Value::F64(y)) => Ok(f64_bits_equal(x, y)),
        (Value::U32(x), Value::U32(y)) => Ok(x == y),
        (Value::Fx(x), Value::Fx(y)) => Ok(x == y),
        (Value::Unit, Value::Unit) => Ok(true),
        (Value::Tuple(h1), Value::Tuple(h2)) => {
            if tuples[h1].len() != tuples[h2].len() {
                Ok(false)
            } else {
                items_eq(tuples, h1, h2, 0)
            }
        },
        _ => Err(type_mismatch("CmpEq/CmpNe operands must have same runtime type")),
    }
}

fn items_eq(tuples: &Vec<Vec<Value>>, h1: usize, h2: usize, k: usize) -> (r: Result<bool, RuntimeError>)
    requires
        store_wf(store_view(tuples@)),
        h1 < tuples@.len(),
        h2 < tuples@.len(),
        tuples@[h1 as int]@.len() == tuples@[h2 as int]@.len(),
    ensures
        match spec_items_eq(store_view(tuples@), h1 as int, h2 as int, k as int) {
            Some(x) => r == Ok::<bool, RuntimeError>(x),
            None => r matches Err(e) && is_type_mismatch(
                e,
                "CmpEq/CmpNe operands must have same runtime type"@,
            ),
        },
    decreases h1 + 1 + h2 + 1, 0int, tuples@[h1 as int]@.len() - k,
{
    let ghost st = store_view(tuples@);
    assert(st[h1 as int] == tuples@[h1 as int]@);
    assert(st[h2 as int] == tuples@[h2 as int]@);
    if k >= tuples[h1].len() {
        return Ok(true);
    }
    let x = tuples[h1][k];
    let y = tuples[h2][k];
    assert(refs_below(st[h1 as int], h1 as int));
    assert(refs_below(st[h2 as int], h2 as int));
    assert(st[h1 as int][k as int] == x);
    assert(st[h2 as int][k as int] == y);
    match value_eq(tuples, x, y) {
        Ok(true) => items_eq(tuples, h1, h2, k + 1),
        other => other,
    }
}

/// `x / y` rounded toward zero, as Rust's integer division rounds.
pub open spec fn trunc_div(x: int, y: int) -> int {
    if (x >= 0) == (y > 0) {
        if x >= 0 {
            x / y
        } else {
            (-x) / (-y)
        }
    } else if x >= 0 {
        -(x / (-y))
    } else {
        -((-x) / y)
    }
}

/// `v` as a fixed-point result: itself when it fits an `i32`, else an
/// overflow trap.
pub open spec fn fx_result(v: int) -> Result<i32, RuntimeError> {
    if i32::MIN <= v <= i32::MAX {
        Ok(v as i32)
    } else {
        Err(RuntimeError::Trap(RuntimeTrap::ArithmeticOverflow))
    }
}

fn fx_fit(v: i64) -> (r: Result<i32, RuntimeError>)
    ensures
        r == fx_result(v as int),
{
    if v < i32::MIN as i64 || v > i32::MAX as i64 {
        Err(RuntimeError::Trap(RuntimeTrap::ArithmeticOverflow))
    } else {
        Ok(v as i32)
    }
}

fn trunc_div_i64(x: i64, y: i64) -> (q: i64)
    requires
        y != 0,
        x > i64::MIN,
        y > i64::MIN,
    ensures
        q == trunc_div(x as int, y as int),
{
    if x >= 0 {
        if y > 0 {
            x / y
        } else {
            0 - (x / (0 - y))
        }
    } else {
        if y > 0 {
            0 - ((0 - x) / y)
        } else {
            (0 - x) / (0 - y)
        }
    }
}

/// Fixed-point addition of raw carriers; an out-of-range sum traps.
pub fn fx_add_raw(lhs: i32, rhs: i32) -> (r: Result<i32, RuntimeError>)
    ensures
        r == fx_result(lhs + rhs),
{
    fx_fit(lhs as i64 + rhs as i64)
}

/// Fixed-point subtraction of raw carriers; an out-of-range difference traps.
pub fn fx_sub_raw(lhs: i32, rhs: i32) -> (r: Result<i32, RuntimeError>)
    ensures
        r == fx_result(lhs - rhs),
{
    fx_fit(lhs as i64 - rhs as i64)
}

/// Fixed-point multiplication (scale 1000): the product divided by 1000,
/// rounded toward zero; an out-of-range result traps.
pub fn fx_mul_raw(lhs: i32, rhs: i32) -> (r: Result<i32, RuntimeError>)
    ensures
        r == fx_result(trunc_div(lhs * rhs, 1000)),
{
    assert(-0x4000_0000_0000_0000 <= lhs * rhs <= 0x4000_0000_0000_0000) by (nonlinear_arith)
        requires
            i32::MIN <= lhs <= i32::MAX,
            i32::MIN <= rhs <= i32::MAX,
    ;
    let p = lhs as i64 * rhs as i64;
    fx_fit(trunc_div_i64(p, 1000))
}

/// Fixed-point division (scale 1000): a zero divisor traps; otherwise
/// `lhs * 1000 / rhs` rounded toward zero, trapping when out of range.
pub fn fx_div_raw(lhs: i32, rhs: i32) -> (r: Result<i32, RuntimeError>)
    ensures
        rhs == 0 ==> r == Err::<i32, RuntimeError>(RuntimeError::Trap(RuntimeTrap::DivisionByZero)),
        rhs != 0 ==> r == fx_result(trunc_div(lhs * 1000, rhs as int)),
{
    if rhs == 0 {
        return Err(RuntimeError::Trap(RuntimeTrap::DivisionByZero));
    }
    let scaled = lhs as i64 * 1000;
    fx_fit(trunc_div_i64(scaled, rhs as i64))
}

/// The fallback value of a state query on `key`: a 31-based rolling hash
/// of its bytes with wrapping `i32` arithmetic.
pub open spec fn state_fallback_hash(bytes: Seq<u8>) -> i32
    decreases bytes.len(),
{
    if bytes.len() == 0 {
        0
    } else {
        state_fallback_hash(bytes.drop_last()).wrapping_mul(31).wrapping_add(bytes.last() as i32)
    }
}

/// The value a state query on `key` gets when no host answers it.
pub fn stable_state_query_fallback(key: &str) -> (h: i32)
    ensures
        h == state_fallback_hash(vstd::utf8::encode_utf8(key@)),
{
    let bytes = key.as_bytes();
    let ghost b = bytes@;
    let mut acc: i32 = 0;
    let mut k: usize = 0;
    while k < bytes.len()
        invariant
            b == bytes@,
            b == vstd::utf8::encode_utf8(key@),
            k <= b.len(),
            acc == state_fallback_hash(b.take(k as int)),
        decreases b.len() - k,
    {
        proof {
            assert(b.take(k + 1).drop_last() =~= b.take(k as int));
        }
        acc = acc.wrapping_mul(31).wrapping_add(bytes[k] as i32);
        k = k + 1;
    }
    assert(b.take(b.len() as int) =~= b);
    acc
}

/// `Ok` while `used` is within the quota for `kind`, the overrun otherwise.
pub fn enforce_quota(quotas: &RuntimeQuotas, kind: QuotaKind, used: usize) -> (r: Result<(), RuntimeError>)
    ensures
        used <= quotas.limit_of(kind) ==> r is Ok,
        used > quotas.limit_of(kind) ==> r == Err::<(), RuntimeError>(
            RuntimeError::QuotaExceeded(QuotaExceeded { kind, limit: quotas.limit_of(kind), used }),
        ),
{
    match quotas.exceed(kind, used) {
        Some(exceeded) => Err(RuntimeError::QuotaExceeded(exceeded)),
        None => Ok(()),
    }
}

/// String `sid` of the function's string table.
pub fn lookup_str(f: &FunctionBytecode, sid: u16) -> (r: Result<&str, RuntimeError>)
    ensures
        sid < f.strings@.len() ==> (r matches Ok(s) && s@ == f.strings@[sid as int]@),
        sid >= f.strings@.len() ==> r == Err::<&str, RuntimeError>(RuntimeError::InvalidStringId(sid)),
{
    if (sid as usize) < f.strings.len() {
        Ok(f.strings[sid as usize].as_str())
    } else {
        Err(RuntimeError::InvalidStringId(sid))
    }
}

/// The runtime symbol that string `sid` of the function interns to.
pub fn lookup_symbol(f: &FunctionBytecode, sid: u16) -> (r: Result<SymbolId, RuntimeError>)
    ensures
        sid < f.symbol_ids@.len() ==> r == Ok::<SymbolId, RuntimeError>(f.symbol_ids@[sid as int]),
        sid >= f.symbol_ids@.len() ==> r == Err::<SymbolId, RuntimeError>(
            RuntimeError::InvalidStringId(sid),
        ),
{
    if (sid as usize) < f.symbol_ids.len() {
        Ok(f.symbol_ids[sid as usize])
    } else {
        Err(RuntimeError::InvalidStringId(sid))
    }
}

/// The quad in `v`, or a type error.
pub fn as_quad(v: Value) -> (r: Result<QuadVal, RuntimeError>)
    ensures
        v matches Value::Quad(q) ==> r == Ok::<QuadVal, RuntimeError>(q),
        !(v is Quad) ==> (r matches Err(e) && is_type_mismatch(e, "expected quad"@)),
{
    if let Value::Quad(q) = v {
        Ok(q)
    } else {
        Err(type_mismatch("expected quad"))
    }
}

/// The boolean in `v`, or a type error.
pub fn as_bool(v: Value) -> (r: Result<bool, RuntimeError>)
    ensures
        v matches Value::Bool(b) ==> r == Ok::<bool, RuntimeError>(b),
        !(v is Bool) ==> (r matches Err(e) && is_type_mismatch(e, "expected bool"@)),
{
    if let Value::Bool(b) = v {
        Ok(b)
    } else {
        Err(type_mismatch("expected bool"))
    }
}

/// The `i32` in `v`, or a type error.
pub fn as_i32(v: Value) -> (r: Result<i32, RuntimeError>)
    ensures
        v matches Value::I32(x) ==> r == Ok::<i32, RuntimeError>(x),
        !(v is I32) ==> (r matches Err(e) && is_type_mismatch(e, "expected i32"@)),
{
    if let Value::I32(x) = v {
        Ok(x)
    } else {
        Err(type_mismatch("expected i32"))
    }
}

/// The bits of the `f64` in `v`, or a type error.
pub fn as_f64(v: Value) -> (r: Result<u64, RuntimeError>)
    ensures
        v matches Value::F64(x) ==> r == Ok::<u64, RuntimeError>(x),
        !(v is F64) ==> (r matches Err(e) && is_type_mismatch(e, "expected f64"@)),
{
    if let Value::F64(x) = v {
        Ok(x)
    } else {
        Err(type_mismatch("expected f64"))
    }
}

/// The fixed-point carrier in `v`, or a type error.
pub fn as_fx(v: Value) -> (r: Result<i32, RuntimeError>)
    ensures
        v matches Value::Fx(x) ==> r == Ok::<i32, RuntimeError>(x),
        !(v is Fx) ==> (r matches Err(e) && is_type_mismatch(e, "expected fx"@)),
{
    if let Value::Fx(x) = v {
        Ok(x)
    } else {
        Err(type_mismatch("expected fx"))
    }
}

/// The message a format error is reported with.
pub open spec fn format_error_message(e: SemcodeFormatError) -> Seq<char> {
    match e {
        SemcodeFormatError::UnexpectedEof => "unexpected EOF"@,
        SemcodeFormatError::InvalidUtf8 => "invalid utf8"@,
        SemcodeFormatError::UnknownOpcode(b) => "unknown opcode 0x"@ + hex2(b),
    }
}

/// `e` is a format error whose message is `msg`.
pub open spec fn is_bad_format(e: RuntimeError, msg: Seq<char>) -> bool {
    e matches RuntimeError::BadFormat(m) && m@ == msg
}

/// A format error as the machine reports it.
pub fn map_format_err(err: SemcodeFormatError) -> (r: RuntimeError)
    ensures
        is_bad_format(r, format_error_message(err)),
{
    match err {
        SemcodeFormatError::UnexpectedEof => RuntimeError::BadFormat(String::from_str("unexpected EOF")),
        SemcodeFormatError::InvalidUtf8 => RuntimeError::BadFormat(String::from_str("invalid utf8")),
        SemcodeFormatError::UnknownOpcode(b) => {
            let mut m = String::from_str("unknown opcode 0x");
            push_hex2(&mut m, b);
            RuntimeError::BadFormat(m)
        },
    }
}

/// What decoding at `pos` gives: the instruction found there, or the error
/// the decoder reports.
pub open spec fn decode_at(code: Seq<u8>, pos: int) -> Result<Instr, SemcodeFormatError> {
    if 0 <= pos < code.len() && opcode_of_byte(code[pos]) is None {
        Err(SemcodeFormatError::UnknownOpcode(code[pos]))
    } else if exists|i: Instr| decodes_to(code, pos, i) {
        Ok(choose|i: Instr| decodes_to(code, pos, i))
    } else {
        Err(SemcodeFormatError::UnexpectedEof)
    }
}

/// The jump target of a `Jmp` or `JmpIf`.
pub open spec fn jump_target_of(i: Instr) -> Option<u32> {
    match i {
        Instr::Jmp { addr } => Some(addr),
        Instr::JmpIf { addr, .. } => Some(addr),
        _ => None,
    }
}

/// At `pos` starts a tuple literal whose announced arity is below two. The
/// arity is checked as soon as it is read, before the items are.
pub open spec fn short_tuple_header_at(code: Seq<u8>, pos: int) -> bool {
    &&& 0 <= pos
    &&& pos + 5 <= code.len()
    &&& code[pos] == 0x43
    &&& crate::semcode_format::le_u16_at(code, pos + 3) < 2
}

/// Why an instruction stream is rejected.
#[derive(Debug, Clone, Copy, PartialEq, Eq, Structural)]
pub enum StreamFailure {
    Decode(SemcodeFormatError),
    ShortTuple,
}

/// Walks the instructions from `pos` to the end of `code`: the offsets
/// (from `base`) at which instructions start and the jump targets, in
/// order, or the first failure.
pub open spec fn scan_stream(code: Seq<u8>, base: int, pos: int) -> Result<
    (Set<usize>, Seq<u32>),
    StreamFailure,
>
    decreases code.len() - pos,
{
    if pos < 0 || pos >= code.len() {
        Ok((Set::empty(), Seq::empty()))
    } else if short_tuple_header_at(code, pos) {
        Err(StreamFailure::ShortTuple)
    } else {
        match decode_at(code, pos) {
            Err(e) => Err(StreamFailure::Decode(e)),
            Ok(i) => if encode(i).len() == 0 {
                Ok((Set::empty(), Seq::empty()))
            } else {
                match scan_stream(code, base, pos + encode(i).len()) {
                    Ok((st, js)) => Ok(
                        (
                            st.insert((pos - base) as usize),
                            match jump_target_of(i) {
                                Some(a) => seq![a] + js,
                                None => js,
                            },
                        ),
                    ),
                    Err(e) => Err(e),
                }
            },
        }
    }
}

/// Joins what was collected so far with the rest of a walk.
pub open spec fn glue(
    st: Set<usize>,
    js: Seq<u32>,
    rest: Result<(Set<usize>, Seq<u32>), StreamFailure>,
) -> Result<(Set<usize>, Seq<u32>), StreamFailure> {
    match rest {
        Ok((st2, js2)) => Ok((st.union(st2), js + js2)),
        Err(e) => Err(e),
    }
}

/// Why a function image is rejected.
#[derive(Debug, Clone, Copy, PartialEq, Eq, Structural)]
pub enum ImageFailure {
    BadInstrStart,
    Stream(StreamFailure),
    DebugPc(usize),
    JumpOutOfRange(usize),
    JumpNotBoundary(usize),
}

/// The first debug entry from `k` on whose pc lies past the instructions.
pub open spec fn first_bad_debug(debug: Seq<DebugSymbol>, instr_len: int, k: int) -> Option<usize>
    decreases debug.len() - k,
{
    if k < 0 || k >= debug.len() {
        None
    } else if debug[k].pc >= instr_len {
        Some(debug[k].pc)
    } else {
        first_bad_debug(debug, instr_len, k + 1)
    }
}

/// The first jump from `k` on that leaves the code or lands inside an
/// instruction.
pub open spec fn first_bad_jump(jumps: Seq<u32>, starts: Set<usize>, instr_len: int, k: int) -> Option<
    ImageFailure,
>
    decreases jumps.len() - k,
{
    if k < 0 || k >= jumps.len() {
        None
    } else if jumps[k] >= instr_len {
        Some(ImageFailure::JumpOutOfRange(jumps[k] as usize))
    } else if !starts.contains(jumps[k] as usize) {
        Some(ImageFailure::JumpNotBoundary(jumps[k] as usize))
    } else {
        first_bad_jump(jumps, starts, instr_len, k + 1)
    }
}

/// The checks on a function image, in the order they are made: the start
/// of the instructions, the instruction stream, the debug table, the jumps.
pub open spec fn image_check(code: Seq<u8>, instr_start: int, debug: Seq<DebugSymbol>) -> Result<
    (),
    ImageFailure,
> {
    if instr_start > code.len() {
        Err(ImageFailure::BadInstrStart)
    } else {
        match scan_stream(code, instr_start, instr_start) {
            Err(e) => Err(ImageFailure::Stream(e)),
            Ok((starts, jumps)) => {
                let instr_len = code.len() - instr_start;
                match first_bad_debug(debug, instr_len, 0) {
                    Some(pc) => Err(ImageFailure::DebugPc(pc)),
                    None => match first_bad_jump(jumps, starts, instr_len, 0) {
                        Some(e) => Err(e),
                        None => Ok(()),
                    },
                }
            },
        }
    }
}

/// The message an image failure of function `name` is reported with.
pub open spec fn image_failure_message(e: ImageFailure, name: Seq<char>) -> Seq<char> {
    match e {
        ImageFailure::BadInstrStart => "invalid instr_start in '"@ + name + "'"@,
        ImageFailure::Stream(StreamFailure::Decode(d)) => format_error_message(d),
        ImageFailure::Stream(StreamFailure::ShortTuple) => "tuple literal arity must be at least 2 in '"@
            + name + "'"@,
        ImageFailure::DebugPc(pc) => "debug pc out of range in '"@ + name + "': "@ + decimal(
            pc as nat,
        ),
        ImageFailure::JumpOutOfRange(a) => "jump out of range in '"@ + name + "': "@ + decimal(
            a as nat,
        ),
        ImageFailure::JumpNotBoundary(a) => "jump to non-instruction boundary in '"@ + name
            + "': "@ + decimal(a as nat),
    }
}

broadcast use vstd::std_specs::hash::group_hash_axioms;

fn quoted_name(prefix: &str, name: &String, suffix: &str) -> (m: String)
    ensures
        m@ == prefix@ + name@ + suffix@,
{
    let mut m = String::from_str(prefix);
    m.append(name.as_str());
    m.append(suffix);
    m
}

fn quoted_name_number(prefix: &str, name: &String, n: usize) -> (m: String)
    ensures
        m@ == prefix@ + name@ + "': "@ + decimal(n as nat),
{
    let mut m = quoted_name(prefix, name, "': ");
    push_decimal(&mut m, n as u64);
    m
}

pub(crate) proof fn lemma_decode_at_agrees(code: Seq<u8>, pos: int, i: Instr)
    requires
        decodes_to(code, pos, i),
    ensures
        decode_at(code, pos) matches Ok(j) && same_instr(i, j) && encode(i) == encode(j)
            && jump_target_of(i) == jump_target_of(j),
{
    crate::bytecode::lemma_decoding_shape(code, pos, i);
    let j = choose|j: Instr| decodes_to(code, pos, j);
    lemma_decode_unique(code, pos, i, j);
    match (i, j) {
        (Instr::MakeTuple { .. }, Instr::MakeTuple { .. }) => {},
        (Instr::Call { .. }, Instr::Call { .. }) => {},
        _ => {},
    }
}

/// Checks a parsed function image: where its instructions start, that they
/// decode to the end of the code with no tuple literal of arity below two,
/// that its debug entries point into the instructions, and that its jumps
/// land on instruction starts.
pub fn validate_function_bytecode(f: &FunctionBytecode) -> (r: Result<(), RuntimeError>)
    ensures
        match image_check(f.code@, f.instr_start as int, f.debug_symbols@) {
            Ok(()) => r is Ok,
            Err(e) => r matches Err(err) && is_bad_format(err, image_failure_message(e, f.name@)),
        },
{
    let code = f.code.as_slice();
    let base = f.instr_start;
    if base > code.len() {
        return Err(RuntimeError::BadFormat(quoted_name("invalid instr_start in '", &f.name, "'")));
    }
    let ghost c = code@;
    let mut cur = base;
    let mut starts: HashSet<usize> = HashSet::new();
    let mut jumps: Vec<u32> = Vec::new();
    assert(starts@ =~= Set::<usize>::empty());
    assert(jumps@ =~= Seq::<u32>::empty());
    proof {
        match scan_stream(c, base as int, base as int) {
            Ok((st, js)) => {
                assert(Set::<usize>::empty().union(st) =~= st);
                assert(Seq::<u32>::empty() + js =~= js);
            },
            Err(_) => {},
        }
    }
    while cur < code.len()
        invariant
            c == code@,
            c == f.code@,
            base == f.instr_start,
            base <= cur <= c.len(),
            glue(starts@, jumps@, scan_stream(c, base as int, cur as int)) == scan_stream(
                c,
                base as int,
                base as int,
            ),
            forall|x: usize| #[trigger] starts@.contains(x) ==> x < cur - base,
        decreases c.len() - cur,
    {
        if code.len() - cur >= 5 && code[cur] == 0x43 && (code[cur + 3] as u16 + (code[cur + 4] as u16)
            * 256) < 2 {
            assert(short_tuple_header_at(c, cur as int));
            return Err(
                RuntimeError::BadFormat(
                    quoted_name("tuple literal arity must be at least 2 in '", &f.name, "'"),
                ),
            );
        }
        assert(!short_tuple_header_at(c, cur as int));
        match decode_instr(code, cur) {
            Err(e) => {
                assert(decode_at(c, cur as int) == Err::<Instr, SemcodeFormatError>(e));
                return Err(map_format_err(e));
            },
            Ok((i, next)) => {
                proof {
                    lemma_decode_at_agrees(c, cur as int, i);
                    crate::bytecode::lemma_encode_len(i);
                }
                let ghost before_st = starts@;
                let ghost before_js = jumps@;
                let _ = starts.insert(cur - base);
                match &i {
                    Instr::Jmp { addr } => jumps.push(*addr),
                    Instr::JmpIf { addr, .. } => jumps.push(*addr),
                    _ => {},
                }
                proof {
                    let rest = scan_stream(c, base as int, next as int);
                    match rest {
                        Ok((st2, js2)) => {
                            assert(before_st.insert((cur - base) as usize).union(st2) =~= before_st.union(
                                st2.insert((cur - base) as usize),
                            ));
                            match jump_target_of(i) {
                                Some(a) => {
                                    assert(before_js.push(a) + js2 =~= before_js + (seq![a] + js2));
                                },
                                None => {},
                            }
                        },
                        Err(_) => {},
                    }
                }
                cur = next;
            },
        }
    }
    let ghost scanned = scan_stream(c, base as int, cur as int);
    assert(scanned == Ok::<(Set<usize>, Seq<u32>), StreamFailure>((Set::empty(), Seq::empty())));
    assert(starts@.union(Set::<usize>::empty()) =~= starts@);
    assert(jumps@ + Seq::<u32>::empty() =~= jumps@);
    assert(scan_stream(c, base as int, base as int) == Ok::<(Set<usize>, Seq<u32>), StreamFailure>(
        (starts@, jumps@),
    ));
    let instr_len = code.len() - base;
    let mut k: usize = 0;
    while k < f.debug_symbols.len()
        invariant
            k <= f.debug_symbols@.len(),
            instr_len == f.code@.len() - f.instr_start,
            f.instr_start <= f.code@.len(),
            scan_stream(f.code@, f.instr_start as int, f.instr_start as int) == Ok::<
                (Set<usize>, Seq<u32>),
                StreamFailure,
            >((starts@, jumps@)),
            first_bad_debug(f.debug_symbols@, instr_len as int, 0) == first_bad_debug(
                f.debug_symbols@,
                instr_len as int,
                k as int,
            ),
        decreases f.debug_symbols@.len() - k,
    {
        let pc = f.debug_symbols[k].pc;
        if pc >= instr_len {
            return Err(
                RuntimeError::BadFormat(quoted_name_number("debug pc out of range in '", &f.name, pc)),
            );
        }
        k = k + 1;
    }
    let mut k: usize = 0;
    while k < jumps.len()
        invariant
            k <= jumps@.len(),
            instr_len == f.code@.len() - f.instr_start,
            f.instr_start <= f.code@.len(),
            scan_stream(f.code@, f.instr_start as int, f.instr_start as int) == Ok::<
                (Set<usize>, Seq<u32>),
                StreamFailure,
            >((starts@, jumps@)),
            first_bad_debug(f.debug_symbols@, instr_len as int, 0) is None,
            first_bad_jump(jumps@, starts@, instr_len as int, 0) == first_bad_jump(
                jumps@,
                starts@,
                instr_len as int,
                k as int,
            ),
        decreases jumps@.len() - k,
    {
        let addr = jumps[k] as usize;
        if addr >= instr_len {
            return Err(
                RuntimeError::BadFormat(quoted_name_number("jump out of range in '", &f.name, addr)),
            );
        }
        if !starts.contains(&addr) {
            return Err(
                RuntimeError::BadFormat(
                    quoted_name_number("jump to non-instruction boundary in '", &f.name, addr),
                ),
            );
        }
        k = k + 1;
    }
    Ok(())
}

/// Why the string table or debug table of a function image is rejected.
#[derive(Debug, Clone, Copy, PartialEq, Eq, Structural)]
pub enum TableFailure {
    Format(SemcodeFormatError),
    TooManyStrings(usize),
    StringTooLong(usize),
    TooManyDebugSymbols(usize),
}

/// Most strings a function's table may hold.
pub const MAX_STRINGS_PER_FUNCTION: usize = 4096;

/// Longest string, in bytes, a table may hold.
pub const MAX_STRING_LEN: usize = 8192;

/// Most debug entries a function may carry.
pub const MAX_DEBUG_SYMBOLS_PER_FUNCTION: usize = 8192;

/// Reads `n` length-prefixed UTF-8 strings from `pos`: the texts and the
/// position after them, or the first failure.
pub open spec fn read_strings(code: Seq<u8>, pos: int, n: int) -> Result<(Seq<Seq<char>>, int), TableFailure>
    decreases n,
{
    if n <= 0 {
        Ok((Seq::empty(), pos))
    } else if pos + 2 > code.len() {
        Err(TableFailure::Format(SemcodeFormatError::UnexpectedEof))
    } else {
        let l = crate::semcode_format::le_u16_at(code, pos) as int;
        if l > MAX_STRING_LEN {
            Err(TableFailure::StringTooLong(l as usize))
        } else if pos + 2 + l > code.len() {
            Err(TableFailure::Format(SemcodeFormatError::UnexpectedEof))
        } else if !vstd::utf8::valid_utf8(code.subrange(pos + 2, pos + 2 + l)) {
            Err(TableFailure::Format(SemcodeFormatError::InvalidUtf8))
        } else {
            match read_strings(code, pos + 2 + l, n - 1) {
                Ok((rest, p)) => Ok(
                    (seq![vstd::utf8::decode_utf8(code.subrange(pos + 2, pos + 2 + l))] + rest, p),
                ),
                Err(e) => Err(e),
            }
        }
    }
}

/// The debug entry `k` of a table whose entries start at `pos`.
pub open spec fn debug_entry(code: Seq<u8>, pos: int, k: int) -> DebugSymbol {
    DebugSymbol {
        pc: crate::semcode_format::le_u32_at(code, pos + 10 * k) as usize,
        line: crate::semcode_format::le_u32_at(code, pos + 10 * k + 4),
        col: crate::semcode_format::le_u16_at(code, pos + 10 * k + 8),
    }
}

/// The four bytes `DBG0` that open a debug table.
pub open spec fn debug_tag() -> Seq<u8> {
    seq![0x44u8, 0x42u8, 0x47u8, 0x30u8]
}

/// The string table and the optional debug table at the start of a
/// function's code: the strings, the debug entries and where the
/// instructions start.
pub open spec fn spec_tables(code: Seq<u8>) -> Result<(Seq<Seq<char>>, Seq<DebugSymbol>, int), TableFailure> {
    if code.len() < 2 {
        Err(TableFailure::Format(SemcodeFormatError::UnexpectedEof))
    } else {
        let count = crate::semcode_format::le_u16_at(code, 0) as int;
        if count > MAX_STRINGS_PER_FUNCTION {
            Err(TableFailure::TooManyStrings(count as usize))
        } else {
            match read_strings(code, 2, count) {
                Err(e) => Err(e),
                Ok((strings, p)) => if p + 4 <= code.len() && code.subrange(p, p + 4) == debug_tag() {
                    if p + 6 > code.len() {
                        Err(TableFailure::Format(SemcodeFormatError::UnexpectedEof))
                    } else {
                        let n = crate::semcode_format::le_u16_at(code, p + 4) as int;
                        if n > MAX_DEBUG_SYMBOLS_PER_FUNCTION {
                            Err(TableFailure::TooManyDebugSymbols(n as usize))
                        } else if p + 6 + 10 * n > code.len() {
                            Err(TableFailure::Format(SemcodeFormatError::UnexpectedEof))
                        } else {
                            Ok((strings, Seq::new(n as nat, |k: int| debug_entry(code, p + 6, k)), p + 6 + 10 * n))
                        }
                    }
                } else {
                    Ok((strings, Seq::empty(), p))
                },
            }
        }
    }
}

/// The message a table failure is reported with.
pub open spec fn table_failure_message(e: TableFailure) -> Seq<char> {
    match e {
        TableFailure::Format(d) => format_error_message(d),
        TableFailure::TooManyStrings(n) => "too many strings in function: "@ + decimal(n as nat)
            + " (max 4096)"@,
        TableFailure::StringTooLong(n) => "string too long in function string table: "@ + decimal(
            n as nat,
        ),
        TableFailure::TooManyDebugSymbols(n) => "too many debug symbols in function: "@ + decimal(
            n as nat,
        ) + " (max 8192)"@,
    }
}

fn table_error(e: TableFailure) -> (r: RuntimeError)
    ensures
        is_bad_format(r, table_failure_message(e)),
{
    match e {
        TableFailure::Format(d) => map_format_err(d),
        TableFailure::TooManyStrings(n) => {
            let mut m = String::from_str("too many strings in function: ");
            push_decimal(&mut m, n as u64);
            m.append(" (max 4096)");
            RuntimeError::BadFormat(m)
        },
        TableFailure::StringTooLong(n) => {
            let mut m = String::from_str("string too long in function string table: ");
            push_decimal(&mut m, n as u64);
            RuntimeError::BadFormat(m)
        },
        TableFailure::TooManyDebugSymbols(n) => {
            let mut m = String::from_str("too many debug symbols in function: ");
            push_decimal(&mut m, n as u64);
            m.append(" (max 8192)");
            RuntimeError::BadFormat(m)
        },
    }
}

/// Joins the strings read so far with the rest of a table read.
pub open spec fn strings_glue(
    acc: Seq<Seq<char>>,
    rest: Result<(Seq<Seq<char>>, int), TableFailure>,
) -> Result<(Seq<Seq<char>>, int), TableFailure> {
    match rest {
        Ok((r, p)) => Ok((acc + r, p)),
        Err(e) => Err(e),
    }
}

/// Reads the string table and the optional debug table at the start of a
/// function's code.
pub fn parse_string_table_debug(code: &[u8]) -> (r: Result<(Vec<String>, Vec<DebugSymbol>, usize), TableFailure>)
    ensures
        match spec_tables(code@) {
            Ok((strings, debug, start)) => r matches Ok((sv, dv, st)) && sv@.len() == strings.len()
                && (forall|k: int| 0 <= k < strings.len() ==> (#[trigger] sv@[k])@ == strings[k])
                && dv@ == debug && st == start,
            Err(e) => r == Err::<(Vec<String>, Vec<DebugSymbol>, usize), TableFailure>(e),
        },
{
    let ghost c = code@;
    let mut i: usize = 0;
    let count = match crate::semcode_format::read_u16_le(code, &mut i) {
        Ok(v) => v as usize,
        Err(e) => return Err(TableFailure::Format(e)),
    };
    if count > MAX_STRINGS_PER_FUNCTION {
        return Err(TableFailure::TooManyStrings(count));
    }
    let mut strings: Vec<String> = Vec::new();
    let mut k: usize = 0;
    let ghost views: Seq<Seq<char>> = Seq::empty();
    assert(strings_glue(views, read_strings(c, 2, count as int)) =~~= read_strings(c, 2, count as int)) by {
        match read_strings(c, 2, count as int) {
            Ok((r, p)) => {
                assert(views + r =~= r);
            },
            Err(_) => {},
        }
    }
    while k < count
        invariant
            c == code@,
            c.len() >= 2,
            count as int == crate::semcode_format::le_u16_at(c, 0) as int,
            count <= MAX_STRINGS_PER_FUNCTION,
            k <= count,
            2 <= i <= c.len(),
            strings@.len() == k,
            views.len() == k,
            forall|j: int| 0 <= j < k ==> (#[trigger] strings@[j])@ == views[j],
            strings_glue(views, read_strings(c, i as int, (count - k) as int)) == read_strings(
                c,
                2,
                count as int,
            ),
        decreases count - k,
    {
        let len = match crate::semcode_format::read_u16_le(code, &mut i) {
            Ok(v) => v as usize,
            Err(e) => return Err(TableFailure::Format(e)),
        };
        if len > MAX_STRING_LEN {
            return Err(TableFailure::StringTooLong(len));
        }
        let ghost at = i as int;
        let text = match crate::semcode_format::read_utf8(code, &mut i, len) {
            Ok(t) => t,
            Err(e) => return Err(TableFailure::Format(e)),
        };
        proof {
            vstd::utf8::encode_utf8_decode_utf8(text@);
            let rest = read_strings(c, i as int, (count - k - 1) as int);
            match rest {
                Ok((r, p)) => {
                    assert(views.push(text@) + r =~= views + (seq![text@] + r));
                },
                Err(_) => {},
            }
            views = views.push(text@);
        }
        strings.push(text);
        k = k + 1;
    }
    let ghost p = i as int;
    assert(read_strings(c, i as int, 0) == Ok::<(Seq<Seq<char>>, int), TableFailure>((Seq::empty(), p)));
    assert(views + Seq::<Seq<char>>::empty() =~= views);
    let mut debug: Vec<DebugSymbol> = Vec::new();
    if code.len() - i >= 4 && code[i] == 0x44 && code[i + 1] == 0x42 && code[i + 2] == 0x47 && code[i + 3]
        == 0x30 {
        assert(c.subrange(p, p + 4) =~= debug_tag());
        i = i + 4;
        let n = match crate::semcode_format::read_u16_le(code, &mut i) {
            Ok(v) => v as usize,
            Err(e) => return Err(TableFailure::Format(e)),
        };
        if n > MAX_DEBUG_SYMBOLS_PER_FUNCTION {
            return Err(TableFailure::TooManyDebugSymbols(n));
        }
        if (code.len() - i) / 10 < n {
            return Err(TableFailure::Format(SemcodeFormatError::UnexpectedEof));
        }
        let base = i;
        let mut k: usize = 0;
        while k < n
            invariant
                c == code@,
                base == p + 6,
                base + 10 * n <= c.len(),
                k <= n,
                i == base + 10 * k,
                debug@ =~= Seq::new(k as nat, |j: int| debug_entry(c, base as int, j)),
            decreases n - k,
        {
            let pc = match crate::semcode_format::read_u32_le(code, &mut i) {
                Ok(v) => v as usize,
                Err(e) => return Err(TableFailure::Format(e)),
            };
            let line = match crate::semcode_format::read_u32_le(code, &mut i) {
                Ok(v) => v,
                Err(e) => return Err(TableFailure::Format(e)),
            };
            let col = match crate::semcode_format::read_u16_le(code, &mut i) {
                Ok(v) => v,
                Err(e) => return Err(TableFailure::Format(e)),
            };
            debug.push(DebugSymbol { pc, line, col });
            k = k + 1;
        }
    } else {
        assert(!(p + 4 <= c.len() && c.subrange(p, p + 4) == debug_tag())) by {
            if p + 4 <= c.len() && c.subrange(p, p + 4) == debug_tag() {
                assert(c[p] == c.subrange(p, p + 4)[0]);
                assert(c[p + 1] == c.subrange(p, p + 4)[1]);
                assert(c[p + 2] == c.subrange(p, p + 4)[2]);
                assert(c[p + 3] == c.subrange(p, p + 4)[3]);
            }
        }
        assert(debug@ =~= Seq::<DebugSymbol>::empty());
    }
    Ok((strings, debug, i))
}

/// Most functions an image may hold.
pub const MAX_FUNCTIONS: usize = 4096;

/// A function of an image, as plain values.
pub struct FunctionImage {
    pub name: Seq<char>,
    pub strings: Seq<Seq<char>>,
    pub debug: Seq<DebugSymbol>,
    pub code: Seq<u8>,
    pub instr_start: int,
}

/// A parsed function seen as plain values.
pub open spec fn image_of(f: FunctionBytecode) -> FunctionImage {
    FunctionImage {
        name: f.name@,
        strings: Seq::new(f.strings@.len(), |k: int| f.strings@[k]@),
        debug: f.debug_symbols@,
        code: f.code@,
        instr_start: f.instr_start as int,
    }
}

/// Why an image is rejected; the name is that of the function concerned,
/// where there is one.
#[derive(Debug, Clone, Copy, PartialEq, Eq, Structural)]
pub enum ParseFailure {
    BadHeader,
    UnsupportedVersion,
    TooManyFunctions,
    Format(SemcodeFormatError),
    EmptyName,
    NameTooLong(usize),
    CodeOutOfBounds,
    Table(TableFailure),
    Image(ImageFailure),
    Duplicate,
}

/// The function at `pos`, given the names already seen: a `u16` name
/// length, the UTF-8 name, a `u32` code length and the code, whose tables
/// and instructions must pass their checks. `Ok` gives the function and
/// the position after it.
pub open spec fn parse_step(bytes: Seq<u8>, pos: int, seen: Seq<Seq<char>>) -> Result<
    (FunctionImage, int),
    (ParseFailure, Seq<char>),
> {
    let none = Seq::<char>::empty();
    if seen.len() >= MAX_FUNCTIONS {
        Err((ParseFailure::TooManyFunctions, none))
    } else if pos + 2 > bytes.len() {
        Err((ParseFailure::Format(SemcodeFormatError::UnexpectedEof), none))
    } else {
        let nl = crate::semcode_format::le_u16_at(bytes, pos) as int;
        let q = pos + 2 + nl;
        if nl == 0 {
            Err((ParseFailure::EmptyName, none))
        } else if nl > MAX_STRING_LEN {
            Err((ParseFailure::NameTooLong(nl as usize), none))
        } else if q > bytes.len() {
            Err((ParseFailure::Format(SemcodeFormatError::UnexpectedEof), none))
        } else if !vstd::utf8::valid_utf8(bytes.subrange(pos + 2, q)) {
            Err((ParseFailure::Format(SemcodeFormatError::InvalidUtf8), none))
        } else {
            let name = vstd::utf8::decode_utf8(bytes.subrange(pos + 2, q));
            if q + 4 > bytes.len() {
                Err((ParseFailure::Format(SemcodeFormatError::UnexpectedEof), none))
            } else {
                let cl = crate::semcode_format::le_u32_at(bytes, q) as int;
                let cs = q + 4;
                if cs + cl > bytes.len() {
                    Err((ParseFailure::CodeOutOfBounds, none))
                } else {
                    let code = bytes.subrange(cs, cs + cl);
                    match spec_tables(code) {
                        Err(e) => Err((ParseFailure::Table(e), none)),
                        Ok((strings, debug, start)) => match image_check(code, start, debug) {
                            Err(e) => Err((ParseFailure::Image(e), name)),
                            Ok(()) => if seen.contains(name) {
                                Err((ParseFailure::Duplicate, name))
                            } else {
                                Ok(
                                    (
                                        FunctionImage { name, strings, debug, code, instr_start: start },
                                        cs + cl,
                                    ),
                                )
                            },
                        },
                    }
                }
            }
        }
    }
}

/// The functions of an image from `pos` on, given the names already seen.
pub open spec fn parse_functions(bytes: Seq<u8>, pos: int, seen: Seq<Seq<char>>) -> Result<
    Seq<FunctionImage>,
    (ParseFailure, Seq<char>),
>
    decreases bytes.len() - pos,
{
    if pos < 0 || pos >= bytes.len() {
        Ok(Seq::empty())
    } else {
        match parse_step(bytes, pos, seen) {
            Err(e) => Err(e),
            Ok((im, next)) => if next <= pos {
                Ok(Seq::empty())
            } else {
                match parse_functions(bytes, next, seen.push(im.name)) {
                    Ok(rest) => Ok(seq![im] + rest),
                    Err(e) => Err(e),
                }
            },
        }
    }
}

/// An image: its header, then its functions. `Ok` gives the index of the
/// supported header the magic announces and the functions.
pub open spec fn spec_parse(bytes: Seq<u8>) -> Result<(int, Seq<FunctionImage>), (ParseFailure, Seq<char>)> {
    if bytes.len() < 8 {
        Err((ParseFailure::BadHeader, Seq::empty()))
    } else {
        match crate::semcode_format::header_index_of_magic(bytes.subrange(0, 8)) {
            None => if bytes.subrange(0, 7) == crate::semcode_format::magic_bytes(0x30).subrange(0, 7) {
                Err((ParseFailure::UnsupportedVersion, Seq::empty()))
            } else {
                Err((ParseFailure::BadHeader, Seq::empty()))
            },
            Some(h) => match parse_functions(bytes, 8, Seq::empty()) {
                Ok(fs) => Ok((h, fs)),
                Err(e) => Err(e),
            },
        }
    }
}

/// Interns `strs` one after the other into the table `t`: the table after
/// and the identifiers given.
pub open spec fn intern_all(t: Seq<Seq<char>>, strs: Seq<Seq<char>>) -> (Seq<Seq<char>>, Seq<u32>)
    decreases strs.len(),
{
    if strs.len() == 0 {
        (t, Seq::empty())
    } else {
        let (t1, ids) = intern_all(t, strs.drop_last());
        let (t2, id) = intern_result(t1, strs.last());
        (t2, ids.push(id))
    }
}

/// Interns the strings of each function in turn: the table after and the
/// identifiers of each function's strings.
pub open spec fn intern_functions(t: Seq<Seq<char>>, fs: Seq<FunctionImage>) -> (Seq<Seq<char>>, Seq<Seq<u32>>)
    decreases fs.len(),
{
    if fs.len() == 0 {
        (t, Seq::empty())
    } else {
        let (t1, idss) = intern_functions(t, fs.drop_last());
        let (t2, ids) = intern_all(t1, fs.last().strings);
        (t2, idss.push(ids))
    }
}

/// The text a magic that starts with `SEMCODE` is shown as: its bytes as
/// UTF-8, or `SEMCODE` and U+FFFD when its last byte is not valid there.
pub open spec fn shown_magic(magic: Seq<u8>) -> Seq<char> {
    if vstd::utf8::valid_utf8(magic) {
        vstd::utf8::decode_utf8(magic)
    } else {
        "SEMCODE\u{FFFD}"@
    }
}

/// The error a parse failure of function `name` is reported with.
pub open spec fn parse_error_matches(e: RuntimeError, f: ParseFailure, name: Seq<char>, bytes: Seq<u8>) -> bool {
    match f {
        ParseFailure::BadHeader => e == RuntimeError::BadHeader,
        ParseFailure::UnsupportedVersion => e matches RuntimeError::UnsupportedBytecodeVersion {
            found,
            supported,
        } && found@ == shown_magic(bytes.subrange(0, 8)) && supported@
            == crate::semcode_format::spec_family_header_names(),
        ParseFailure::TooManyFunctions => is_bad_format(e, "too many functions (>4096)"@),
        ParseFailure::Format(d) => is_bad_format(e, format_error_message(d)),
        ParseFailure::EmptyName => is_bad_format(e, "empty function name"@),
        ParseFailure::NameTooLong(n) => is_bad_format(e, "function name too long: "@ + decimal(n as nat)),
        ParseFailure::CodeOutOfBounds => is_bad_format(e, "function code out of bounds"@),
        ParseFailure::Table(t) => is_bad_format(e, table_failure_message(t)),
        ParseFailure::Image(i) => is_bad_format(e, image_failure_message(i, name)),
        ParseFailure::Duplicate => is_bad_format(e, "duplicate function '"@ + name + "'"@),
    }
}

/// The numbers of a list of symbols.
pub open spec fn ids_of(v: Seq<SymbolId>) -> Seq<u32> {
    Seq::new(v.len(), |j: int| v[j].0)
}

/// Joins the functions parsed so far with the rest of a parse.
pub open spec fn functions_glue(
    acc: Seq<FunctionImage>,
    rest: Result<Seq<FunctionImage>, (ParseFailure, Seq<char>)>,
) -> Result<Seq<FunctionImage>, (ParseFailure, Seq<char>)> {
    match rest {
        Ok(r) => Ok(acc + r),
        Err(e) => Err(e),
    }
}

fn intern_strings(symbols: &mut RuntimeSymbolTable, strings: &Vec<String>) -> (ids: Vec<SymbolId>)
    ensures
        (final(symbols)@, ids_of(ids@)) == intern_all(
            old(symbols)@,
            Seq::new(strings@.len(), |k: int| strings@[k]@),
        ),
{
    let ghost strs = Seq::new(strings@.len(), |k: int| strings@[k]@);
    let mut ids: Vec<SymbolId> = Vec::new();
    let mut k: usize = 0;
    assert(strs.take(0) =~= Seq::<Seq<char>>::empty());
    assert(ids_of(ids@) =~= Seq::<u32>::empty());
    while k < strings.len()
        invariant
            strs == Seq::new(strings@.len(), |k: int| strings@[k]@),
            k <= strings@.len(),
            (symbols@, ids_of(ids@)) == intern_all(old(symbols)@, strs.take(k as int)),
        decreases strings@.len() - k,
    {
        let ghost before = ids@;
        let id = symbols.intern(strings[k].as_str());
        ids.push(id);
        proof {
            assert(strs.take(k + 1).drop_last() =~= strs.take(k as int));
            assert(strs.take(k + 1).last() == strings@[k as int]@);
            assert(ids_of(ids@) =~= ids_of(before).push(id.0));
        }
        k = k + 1;
    }
    assert(strs.take(strings@.len() as int) =~= strs);
    ids
}

fn has_function_named(funcs: &Vec<FunctionBytecode>, name: &String) -> (r: bool)
    ensures
        r == (exists|k: int| 0 <= k < funcs@.len() && (#[trigger] funcs@[k]).name@ == name@),
{
    let mut k: usize = 0;
    while k < funcs.len()
        invariant
            k <= funcs@.len(),
            forall|j: int| 0 <= j < k ==> (#[trigger] funcs@[j]).name@ != name@,
        decreases funcs@.len() - k,
    {
        if funcs[k].name.eq(name) {
            return true;
        }
        k = k + 1;
    }
    false
}

/// The names of the functions parsed so far.
pub open spec fn names_of_images(images: Seq<FunctionImage>) -> Seq<Seq<char>> {
    Seq::new(images.len(), |k: int| images[k].name)
}

fn parse_function_at(
    bytes: &[u8],
    at: usize,
    funcs: &Vec<FunctionBytecode>,
    symbols: &mut RuntimeSymbolTable,
    Ghost(images): Ghost<Seq<FunctionImage>>,
) -> (r: Result<(FunctionBytecode, usize), RuntimeError>)
    requires
        at < bytes@.len(),
        funcs@.len() == images.len(),
        forall|k: int| 0 <= k < images.len() ==> image_of(#[trigger] funcs@[k]) == images[k],
    ensures
        match parse_step(bytes@, at as int, names_of_images(images)) {
            Ok((im, next)) => r matches Ok((f, n)) && image_of(f) == im && n == next && (
            final(symbols)@, ids_of(f.symbol_ids@)) == intern_all(old(symbols)@, im.strings),
            Err((fail, name)) => r matches Err(e) && parse_error_matches(e, fail, name, bytes@),
        },
{
    let ghost b = bytes@;
    let ghost seen = names_of_images(images);
    let mut i = at;
    if funcs.len() >= MAX_FUNCTIONS {
        return Err(RuntimeError::BadFormat(String::from_str("too many functions (>4096)")));
    }
    let name_len = match crate::semcode_format::read_u16_le(bytes, &mut i) {
        Ok(v) => v as usize,
        Err(e) => return Err(map_format_err(e)),
    };
    if name_len == 0 {
        return Err(RuntimeError::BadFormat(String::from_str("empty function name")));
    }
    if name_len > MAX_STRING_LEN {
        let mut m = String::from_str("function name too long: ");
        push_decimal(&mut m, name_len as u64);
        return Err(RuntimeError::BadFormat(m));
    }
    let name = match crate::semcode_format::read_utf8(bytes, &mut i, name_len) {
        Ok(t) => t,
        Err(e) => return Err(map_format_err(e)),
    };
    proof {
        vstd::utf8::encode_utf8_decode_utf8(name@);
    }
    let code_len = match crate::semcode_format::read_u32_le(bytes, &mut i) {
        Ok(v) => v as usize,
        Err(e) => return Err(map_format_err(e)),
    };
    if bytes.len() - i < code_len {
        return Err(RuntimeError::BadFormat(String::from_str("function code out of bounds")));
    }
    let code = vstd::slice::slice_to_vec(vstd::slice::slice_subrange(bytes, i, i + code_len));
    i = i + code_len;
    let (strings, debug_symbols, instr_start) = match parse_string_table_debug(code.as_slice()) {
        Ok(t) => t,
        Err(e) => return Err(table_error(e)),
    };
    proof {
        let tables = spec_tables(code@);
        assert(Seq::new(strings@.len(), |k: int| strings@[k]@) =~= tables.unwrap().0);
    }
    let symbol_ids = intern_strings(symbols, &strings);
    let f = FunctionBytecode { name, strings, symbol_ids, debug_symbols, code, instr_start };
    assert(image_of(f).strings =~= Seq::new(f.strings@.len(), |k: int| f.strings@[k]@));
    match validate_function_bytecode(&f) {
        Ok(()) => {},
        Err(e) => return Err(e),
    }
    if has_function_named(funcs, &f.name) {
        assert(seen.contains(f.name@)) by {
            let k = choose|k: int| 0 <= k < funcs@.len() && (#[trigger] funcs@[k]).name@ == f.name@;
            assert(seen[k] == f.name@);
        }
        return Err(RuntimeError::BadFormat(quoted_name("duplicate function '", &f.name, "'")));
    }
    assert(!seen.contains(f.name@)) by {
        if seen.contains(f.name@) {
            let k = choose|k: int| 0 <= k < seen.len() && seen[k] == f.name@;
            assert(funcs@[k].name@ == images[k].name);
        }
    }
    Ok((f, i))
}

/// Parses an image: its header, then each function, whose tables and
/// instructions are checked; the strings of every function are interned
/// into one symbol table, in order.
pub fn parse_semcode(bytes: &[u8]) -> (r: Result<
    (crate::semcode_format::SemcodeHeaderSpec, RuntimeSymbolTable, Vec<FunctionBytecode>),
    RuntimeError,
>)
    ensures
        match spec_parse(bytes@) {
            Ok((h, fs)) => r matches Ok((hdr, table, funcs)) && crate::semcode_format::header_view(hdr)
                == crate::semcode_format::spec_supported_headers()[h] && funcs@.len() == fs.len() && (
            forall|k: int| 0 <= k < fs.len() ==> image_of(#[trigger] funcs@[k]) == fs[k]) && table@
                == intern_functions(Seq::empty(), fs).0 && (forall|k: int|
                0 <= k < fs.len() ==> ids_of((#[trigger] funcs@[k]).symbol_ids@) == intern_functions(
                    Seq::empty(),
                    fs,
                ).1[k]),
            Err((fail, name)) => r matches Err(e) && parse_error_matches(e, fail, name, bytes@),
        },
{
    let ghost b = bytes@;
    if bytes.len() < 8 {
        return Err(RuntimeError::BadHeader);
    }
    let magic: [u8; 8] = [
        bytes[0],
        bytes[1],
        bytes[2],
        bytes[3],
        bytes[4],
        bytes[5],
        bytes[6],
        bytes[7],
    ];
    assert(magic@ =~= b.subrange(0, 8));
    let header = match crate::semcode_format::header_spec_from_magic(&magic) {
        Some(h) => h,
        None => {
            let semcode = bytes[0] == 0x53 && bytes[1] == 0x45 && bytes[2] == 0x4D && bytes[3] == 0x43
                && bytes[4] == 0x4F && bytes[5] == 0x44 && bytes[6] == 0x45;
            proof {
                let m = crate::semcode_format::magic_bytes(0x30).subrange(0, 7);
                if semcode {
                    assert(b.subrange(0, 7) =~= m);
                } else {
                    assert(b.subrange(0, 7) != m) by {
                        if b.subrange(0, 7) == m {
                            assert(b[0] == b.subrange(0, 7)[0]);
                            assert(b[1] == b.subrange(0, 7)[1]);
                            assert(b[2] == b.subrange(0, 7)[2]);
                            assert(b[3] == b.subrange(0, 7)[3]);
                            assert(b[4] == b.subrange(0, 7)[4]);
                            assert(b[5] == b.subrange(0, 7)[5]);
                            assert(b[6] == b.subrange(0, 7)[6]);
                        }
                    }
                }
            }
            if semcode {
                let found = match crate::semcode_format::utf8_text(&magic) {
                    Some(t) => {
                        proof {
                            vstd::utf8::encode_utf8_decode_utf8(t@);
                        }
                        t
                    },
                    None => String::from_str("SEMCODE\u{FFFD}"),
                };
                let supported = crate::semcode_format::family_header_names();
                return Err(RuntimeError::UnsupportedBytecodeVersion { found, supported });
            }
            return Err(RuntimeError::BadHeader);
        },
    };
    let ghost hidx = crate::semcode_format::header_index_of_magic(b.subrange(0, 8)).unwrap();
    let mut i: usize = 8;
    let mut funcs: Vec<FunctionBytecode> = Vec::new();
    let mut symbols = RuntimeSymbolTable::new();
    let ghost mut images: Seq<FunctionImage> = Seq::empty();
    let ghost mut idss: Seq<Seq<u32>> = Seq::empty();
    proof {
        assert(names_of_images(images) =~= Seq::<Seq<char>>::empty());
        match parse_functions(b, 8, Seq::empty()) {
            Ok(r) => {
                assert(images + r =~= r);
            },
            Err(_) => {},
        }
    }
    while i < bytes.len()
        invariant
            b == bytes@,
            8 <= i <= b.len(),
            b.len() >= 8,
            crate::semcode_format::header_index_of_magic(b.subrange(0, 8)) == Some(hidx),
            crate::semcode_format::header_view(header) == crate::semcode_format::spec_supported_headers()[hidx],
            funcs@.len() == images.len(),
            idss.len() == images.len(),
            forall|k: int| 0 <= k < images.len() ==> image_of(#[trigger] funcs@[k]) == images[k],
            forall|k: int| 0 <= k < images.len() ==> ids_of((#[trigger] funcs@[k]).symbol_ids@)
                == idss[k],
            (symbols@, idss) == intern_functions(Seq::empty(), images),
            functions_glue(images, parse_functions(b, i as int, names_of_images(images)))
                == parse_functions(b, 8, Seq::empty()),
        decreases b.len() - i,
    {
        let ghost seen = names_of_images(images);
        let ghost t0 = symbols@;
        let (f, next) = match parse_function_at(bytes, i, &funcs, &mut symbols, Ghost(images)) {
            Ok(x) => x,
            Err(e) => return Err(e),
        };
        proof {
            let im = image_of(f);
            let new_images = images.push(im);
            assert(names_of_images(new_images) =~= seen.push(im.name));
            assert(new_images.drop_last() =~= images);
            match parse_functions(b, next as int, seen.push(im.name)) {
                Ok(r) => {
                    assert(new_images + r =~= images + (seq![im] + r));
                },
                Err(_) => {},
            }
            images = new_images;
            idss = idss.push(ids_of(f.symbol_ids@));
        }
        funcs.push(f);
        i = next;
    }
    proof {
        assert(images + Seq::<FunctionImage>::empty() =~= images);
    }
    Ok((header, symbols, funcs))
}

/// An activation: the instruction offset, the registers, the local
/// variables by symbol, the function index and where the caller wants the
/// result.
#[derive(Debug, Clone)]
pub struct Frame {
    pub pc: usize,
    pub regs: Vec<Value>,
    pub locals: HashMap<u32, Value>,
    pub func: usize,
    pub return_dst: Option<u16>,
}

/// A frame as plain values.
#[verifier::ext_equal]
pub struct FrameModel {
    pub pc: int,
    pub regs: Seq<Value>,
    pub locals: Map<u32, Value>,
    pub func: int,
    pub return_dst: Option<u16>,
}

/// A frame seen as plain values.
pub open spec fn frame_model(f: Frame) -> FrameModel {
    FrameModel {
        pc: f.pc as int,
        regs: f.regs@,
        locals: f.locals@,
        func: f.func as int,
        return_dst: f.return_dst,
    }
}

/// The changing part of a machine as plain values: the stack (top last),
/// the effect-call count and the tuple store.
#[verifier::ext_equal]
pub struct MachineModel {
    pub stack: Seq<FrameModel>,
    pub effect_calls: int,
    pub tuples: Seq<Seq<Value>>,
}

/// An error as plain values.
pub enum ErrorModel {
    BadHeader,
    Unsupported(Seq<char>, Seq<char>),
    BadFormat(Seq<char>),
    UnknownFunction(Seq<char>),
    InvalidJump(Seq<char>, usize),
    TypeMismatch(Seq<char>),
    StackUnderflow,
    StackOverflow,
    Quota(QuotaExceeded),
    Rejected(Seq<crate::static_check::DiagModel>),
    UnknownVariable(Seq<char>),
    InvalidStringId(u16),
    Trap(RuntimeTrap),
}

/// An error seen as plain values.
pub open spec fn error_model(e: RuntimeError) -> ErrorModel {
    match e {
        RuntimeError::BadHeader => ErrorModel::BadHeader,
        RuntimeError::UnsupportedBytecodeVersion { found, supported } => ErrorModel::Unsupported(
            found@,
            supported@,
        ),
        RuntimeError::BadFormat(m) => ErrorModel::BadFormat(m@),
        RuntimeError::UnknownFunction(n) => ErrorModel::UnknownFunction(n@),
        RuntimeError::InvalidJumpAddress { func, addr } => ErrorModel::InvalidJump(func@, addr),
        RuntimeError::TypeMismatchRuntime(m) => ErrorModel::TypeMismatch(m@),
        RuntimeError::StackUnderflow => ErrorModel::StackUnderflow,
        RuntimeError::StackOverflow => ErrorModel::StackOverflow,
        RuntimeError::QuotaExceeded(q) => ErrorModel::Quota(q),
        RuntimeError::VerifierRejected(r) => ErrorModel::Rejected(crate::static_check::diags_model(r.diagnostics@)),
        RuntimeError::UnknownVariable(n) => ErrorModel::UnknownVariable(n@),
        RuntimeError::InvalidStringId(id) => ErrorModel::InvalidStringId(id),
        RuntimeError::Trap(t) => ErrorModel::Trap(t),
    }
}

/// The quota error for `used` units of `kind` under `quotas`, if any.
pub open spec fn quota_check(quotas: RuntimeQuotas, kind: QuotaKind, used: int) -> Option<ErrorModel> {
    if used > quotas.limit_of(kind) {
        Some(
            ErrorModel::Quota(
                QuotaExceeded {
                    kind,
                    limit: quotas.limit_of(kind),
                    used: if used <= usize::MAX {
                        used as usize
                    } else {
                        0
                    },
                },
            ),
        )
    } else {
        None
    }
}

/// Register `r` of a frame, or the error for reading one it does not have.
pub open spec fn read_reg(regs: Seq<Value>, r: u16) -> Result<Value, ErrorModel> {
    if (r as int) < regs.len() {
        Ok(regs[r as int])
    } else {
        Err(ErrorModel::BadFormat("read invalid reg r"@ + decimal(r as nat)))
    }
}

/// The registers after writing `v` to `r`: the file grows with `Unit` to
/// reach `r`, within the register quota.
pub open spec fn write_reg_model(regs: Seq<Value>, r: usize, v: Value, quotas: RuntimeQuotas) -> Result<
    Seq<Value>,
    ErrorModel,
> {
    if (r as int) < regs.len() {
        Ok(regs.update(r as int, v))
    } else {
        match quota_check(quotas, QuotaKind::Registers, r + 1) {
            Some(e) => Err(e),
            None => Ok((regs + Seq::new((r + 1 - regs.len()) as nat, |k: int| Value::Unit)).update(
                r as int,
                v,
            )),
        }
    }
}

fn get_reg(regs: &Vec<Value>, r: u16) -> (res: Result<Value, RuntimeError>)
    ensures
        match read_reg(regs@, r) {
            Ok(v) => res == Ok::<Value, RuntimeError>(v),
            Err(e) => res matches Err(err) && error_model(err) == e,
        },
{
    if (r as usize) < regs.len() {
        Ok(regs[r as usize])
    } else {
        let mut m = String::from_str("read invalid reg r");
        push_decimal(&mut m, r as u64);
        Err(RuntimeError::BadFormat(m))
    }
}

fn write_reg(regs: &mut Vec<Value>, r: u16, v: Value, quotas: &RuntimeQuotas) -> (res: Result<(), RuntimeError>)
    ensures
        match write_reg_model(old(regs)@, r as usize, v, *quotas) {
            Ok(new_regs) => res is Ok && final(regs)@ == new_regs,
            Err(e) => res matches Err(err) && error_model(err) == e,
        },
{
    let r = r as usize;
    if regs.len() <= r {
        let required = r + 1;
        match enforce_quota(quotas, QuotaKind::Registers, required) {
            Ok(()) => {},
            Err(e) => return Err(e),
        }
        let ghost before = regs@;
        while regs.len() < required
            invariant
                before.len() <= regs@.len() <= required,
                regs@ == before + Seq::new((regs@.len() - before.len()) as nat, |k: int| Value::Unit),
            decreases required - regs@.len(),
        {
            regs.push(Value::Unit);
            assert(regs@ =~= before + Seq::new((regs@.len() - before.len()) as nat, |k: int| Value::Unit));
        }
    }
    regs.set(r, v);
    Ok(())
}

/// The index of the first function named `name`, searching from `k`.
pub open spec fn function_index_from(fs: Seq<FunctionBytecode>, name: Seq<char>, k: int) -> Option<int>
    decreases fs.len() - k,
{
    if k < 0 || k >= fs.len() {
        None
    } else if fs[k].name@ == name {
        Some(k)
    } else {
        function_index_from(fs, name, k + 1)
    }
}

/// The stack after calling `name` with `args`: the callee's frame starts at
/// offset 0 with at least 16 registers, the arguments in the first ones.
pub open spec fn push_frame_model(
    fs: Seq<FunctionBytecode>,
    quotas: RuntimeQuotas,
    stack: Seq<FrameModel>,
    name: Seq<char>,
    args: Seq<Value>,
    return_dst: Option<u16>,
) -> Result<Seq<FrameModel>, ErrorModel> {
    match function_index_from(fs, name, 0) {
        None => Err(ErrorModel::UnknownFunction(name)),
        Some(fi) => {
            let depth = stack.len() + 1int;
            let n = if args.len() > 16 {
                args.len() as int
            } else {
                16int
            };
            if depth > usize::MAX {
                Err(ErrorModel::StackOverflow)
            } else {
            match quota_check(quotas, QuotaKind::Frames, depth) {
                Some(e) => Err(e),
                None => if quota_check(quotas, QuotaKind::StackDepth, depth) is Some {
                    Err(ErrorModel::StackOverflow)
                } else {
                    match quota_check(quotas, QuotaKind::Registers, n) {
                        Some(e) => Err(e),
                        None => Ok(
                            stack.push(
                                FrameModel {
                                    pc: 0,
                                    regs: args + Seq::new((n - args.len()) as nat, |k: int| Value::Unit),
                                    locals: Map::empty(),
                                    func: fi,
                                    return_dst,
                                },
                            ),
                        ),
                    }
                },
            }
            }
        },
    }
}

fn find_function(fs: &Vec<FunctionBytecode>, name: &str) -> (r: Option<usize>)
    ensures
        function_index_from(fs@, name@, 0) == match r {
            Some(k) => Some(k as int),
            None => None::<int>,
        },
{
    let mut k: usize = 0;
    while k < fs.len()
        invariant
            k <= fs@.len(),
            function_index_from(fs@, name@, 0) == function_index_from(fs@, name@, k as int),
        decreases fs@.len() - k,
    {
        if crate::text::str_eq(fs[k].name.as_str(), name) {
            return Some(k);
        }
        k = k + 1;
    }
    None
}

fn push_frame(
    fs: &Vec<FunctionBytecode>,
    quotas: &RuntimeQuotas,
    stack: &mut Vec<Frame>,
    name: &str,
    args: Vec<Value>,
    return_dst: Option<u16>,
) -> (r: Result<(), RuntimeError>)
    ensures
        match push_frame_model(
            fs@,
            *quotas,
            Seq::new(old(stack)@.len(), |k: int| frame_model(old(stack)@[k])),
            name@,
            args@,
            return_dst,
        ) {
            Ok(st) => r is Ok && Seq::new(final(stack)@.len(), |k: int| frame_model(final(stack)@[k]))
                == st && final(stack)@.last().func < fs@.len() && final(stack)@.drop_last() == old(
                stack,
            )@ && final(stack)@.last().regs@.subrange(0, args@.len() as int) == args@ && (forall|
                k: int,
            | args@.len() <= k < final(stack)@.last().regs@.len() ==> final(stack)@.last().regs@[k]
                == Value::Unit),
            Err(e) => r matches Err(err) && error_model(err) == e,
        },
{
    let fi = match find_function(fs, name) {
        Some(k) => k,
        None => return Err(RuntimeError::UnknownFunction(String::from_str(name))),
    };
    proof {
        lemma_function_index_bound(fs@, name@, 0);
    }
    if stack.len() == usize::MAX {
        return Err(RuntimeError::StackOverflow);
    }
    let depth = stack.len() + 1;
    match enforce_quota(quotas, QuotaKind::Frames, depth) {
        Ok(()) => {},
        Err(e) => return Err(e),
    }
    match enforce_quota(quotas, QuotaKind::StackDepth, depth) {
        Ok(()) => {},
        Err(_) => return Err(RuntimeError::StackOverflow),
    }
    let n = if args.len() > 16 { args.len() } else { 16 };
    match enforce_quota(quotas, QuotaKind::Registers, n) {
        Ok(()) => {},
        Err(e) => return Err(e),
    }
    let ghost a = args@;
    let mut regs = args;
    while regs.len() < n
        invariant
            a.len() <= regs@.len() <= n,
            regs@ == a + Seq::new((regs@.len() - a.len()) as nat, |k: int| Value::Unit),
        decreases n - regs@.len(),
    {
        regs.push(Value::Unit);
        assert(regs@ =~= a + Seq::new((regs@.len() - a.len()) as nat, |k: int| Value::Unit));
    }
    let frame = Frame { pc: 0, regs, locals: HashMap::new(), func: fi, return_dst };
    let ghost before = stack@;
    stack.push(frame);
    proof {
        assert(frame.regs@.subrange(0, a.len() as int) =~= a);
        assert(Seq::new(stack@.len(), |k: int| frame_model(stack@[k])) =~= Seq::new(
            before.len(),
            |k: int| frame_model(before[k]),
        ).push(frame_model(frame)));
        assert(frame.locals@ =~= Map::<u32, Value>::empty());
        let n_spec: int = if a.len() > 16 { a.len() as int } else { 16int };
        assert(n_spec == n);
        assert(frame_model(frame) =~= FrameModel {
            pc: 0,
            regs: a + Seq::new((n_spec - a.len()) as nat, |k: int| Value::Unit),
            locals: Map::empty(),
            func: fi as int,
            return_dst,
        });
        let st = push_frame_model(
            fs@,
            *quotas,
            Seq::new(before.len(), |k: int| frame_model(before[k])),
            name@,
            a,
            return_dst,
        );
        let expected = Seq::new(before.len(), |k: int| frame_model(before[k])).push(FrameModel {
            pc: 0,
            regs: a + Seq::new((n_spec - a.len()) as nat, |k: int| Value::Unit),
            locals: Map::empty(),
            func: fi as int,
            return_dst,
        });
        assert(st == Ok::<Seq<FrameModel>, ErrorModel>(expected));
        assert(stack@.drop_last() =~= before);
    }
    Ok(())
}

proof fn lemma_function_index_bound(fs: Seq<FunctionBytecode>, name: Seq<char>, k: int)
    ensures
        function_index_from(fs, name, k) matches Some(i) ==> 0 <= i < fs.len() && fs[i].name@
            == name,
    decreases fs.len() - k,
{
    if 0 <= k < fs.len() && fs[k].name@ != name {
        lemma_function_index_bound(fs, name, k + 1);
    }
}

/// What a step did: the run goes on, or the outermost function returned.
#[derive(Debug, Clone, Copy, PartialEq, Eq, Structural)]
pub enum StepOutcome {
    Continue,
    Finished,
}

/// The machine after replacing the top frame by `top`.
pub open spec fn resume(rest: Seq<FrameModel>, top: FrameModel, tuples: Seq<Seq<Value>>, effects: int) -> Result<
    Option<MachineModel>,
    ErrorModel,
> {
    Ok(Some(MachineModel { stack: rest.push(top), effect_calls: effects, tuples }))
}

/// `top` moved on to `pc`.
pub open spec fn at_pc(top: FrameModel, pc: int) -> FrameModel {
    FrameModel { pc, regs: top.regs, locals: top.locals, func: top.func, return_dst: top.return_dst }
}

/// `top` with registers `regs`.
pub open spec fn with_regs(top: FrameModel, regs: Seq<Value>) -> FrameModel {
    FrameModel { pc: top.pc, regs, locals: top.locals, func: top.func, return_dst: top.return_dst }
}

/// Writes `v` to register `dst` of the top frame and moves on to `next`.
pub open spec fn set_and_go(
    rest: Seq<FrameModel>,
    top: FrameModel,
    tuples: Seq<Seq<Value>>,
    effects: int,
    quotas: RuntimeQuotas,
    dst: u16,
    v: Value,
    next: int,
) -> Result<Option<MachineModel>, ErrorModel> {
    match write_reg_model(top.regs, dst as usize, v, quotas) {
        Err(e) => Err(e),
        Ok(regs) => resume(rest, at_pc(with_regs(top, regs), next), tuples, effects),
    }
}

/// Reads registers `rs` in order; the first one missing is the error.
pub open spec fn read_regs(regs: Seq<Value>, rs: Seq<u16>) -> Result<Seq<Value>, ErrorModel>
    decreases rs.len(),
{
    if rs.len() == 0 {
        Ok(Seq::empty())
    } else {
        match read_regs(regs, rs.drop_last()) {
            Err(e) => Err(e),
            Ok(vs) => match read_reg(regs, rs.last()) {
                Err(e) => Err(e),
                Ok(v) => Ok(vs.push(v)),
            },
        }
    }
}

/// The builtin a callee name stands for, if any.
pub open spec fn builtin_op(name: Seq<char>) -> Option<F64Op> {
    if name == "sin"@ {
        Some(F64Op::Sin)
    } else if name == "cos"@ {
        Some(F64Op::Cos)
    } else if name == "tan"@ {
        Some(F64Op::Tan)
    } else if name == "sqrt"@ {
        Some(F64Op::Sqrt)
    } else if name == "abs"@ {
        Some(F64Op::Abs)
    } else if name == "pow"@ {
        Some(F64Op::Pow)
    } else {
        None
    }
}

/// A builtin call: `pow` takes two `f64` arguments, the others one.
pub open spec fn builtin_call(
    name: Seq<char>,
    op: F64Op,
    args: Seq<Value>,
    fe: spec_fn(F64Op, u64, u64) -> u64,
) -> Result<Value, ErrorModel> {
    let n = args.len();
    if op is Pow {
        if n != 2 {
            Err(ErrorModel::TypeMismatch("builtin '"@ + name + "' expects 2 f64 arguments, got "@ + decimal(n)))
        } else {
            match (args[0], args[1]) {
                (Value::F64(a), Value::F64(b)) => Ok(Value::F64(fe(op, a, b))),
                _ => Err(ErrorModel::TypeMismatch("expected f64"@)),
            }
        }
    } else if n != 1 {
        Err(ErrorModel::TypeMismatch("builtin '"@ + name + "' expects 1 f64 argument, got "@ + decimal(n)))
    } else {
        match args[0] {
            Value::F64(a) => Ok(Value::F64(fe(op, a, 0))),
            _ => Err(ErrorModel::TypeMismatch("expected f64"@)),
        }
    }
}

/// The digits of a signed number, with a leading `-` when negative.
pub open spec fn signed_decimal(x: int) -> Seq<char> {
    if x < 0 {
        seq!['-'] + decimal((-x) as nat)
    } else {
        decimal(x as nat)
    }
}

/// How a value is shown in a message.
pub open spec fn value_text(v: Value) -> Seq<char> {
    match v {
        Value::Quad(q) => "Quad("@ + seq![
            match q {
                QuadVal::N => 'N',
                QuadVal::F => 'F',
                QuadVal::T => 'T',
                QuadVal::S => 'S',
            },
        ] + ")"@,
        Value::Bool(b) => if b {
            "Bool(true)"@
        } else {
            "Bool(false)"@
        },
        Value::I32(x) => "I32("@ + signed_decimal(x as int) + ")"@,
        Value::F64(x) => "F64(0x"@ + decimal(x as nat) + ")"@,
        Value::U32(x) => "U32("@ + decimal(x as nat) + ")"@,
        Value::Fx(x) => "Fx("@ + signed_decimal(x as int) + ")"@,
        Value::Tuple(h) => "Tuple(#"@ + decimal(h as nat) + ")"@,
        Value::Unit => "Unit"@,
    }
}

/// The value a legacy gate read gives: the device in the high half, the
/// port in the low half.
pub open spec fn gate_value(device_id: u16, port: u16) -> i32 {
    ((device_id * 65536 + port) as u32) as i32
}

/// A binary instruction on the registers of the top frame.
pub open spec fn binary_effect(
    rest: Seq<FrameModel>,
    top: FrameModel,
    tuples: Seq<Seq<Value>>,
    effects: int,
    quotas: RuntimeQuotas,
    op: Opcode,
    dst: u16,
    lhs: u16,
    rhs: u16,
    next: int,
    fe: spec_fn(F64Op, u64, u64) -> u64,
) -> Result<Option<MachineModel>, ErrorModel> {
    let set = |v: Value| set_and_go(rest, top, tuples, effects, quotas, dst, v, next);
    match read_reg(top.regs, lhs) {
        Err(e) => Err(e),
        Ok(l) => if op is CmpEq || op is CmpNe {
            match read_reg(top.regs, rhs) {
                Err(e) => Err(e),
                Ok(r) => match spec_value_eq(tuples, l, r) {
                    None => Err(ErrorModel::TypeMismatch("CmpEq/CmpNe operands must have same runtime type"@)),
                    Some(eq) => set(Value::Bool(if op is CmpEq { eq } else { !eq })),
                },
            }
        } else if op is QAnd || op is QOr || op is QImpl {
            match l {
                Value::Quad(a) => match read_reg(top.regs, rhs) {
                    Err(e) => Err(e),
                    Ok(Value::Quad(b)) => set(
                        Value::Quad(
                            if op is QAnd {
                                spec_quad_and(a, b)
                            } else if op is QOr {
                                spec_quad_or(a, b)
                            } else {
                                spec_quad_impl(a, b)
                            },
                        ),
                    ),
                    Ok(_) => Err(ErrorModel::TypeMismatch("expected quad"@)),
                },
                _ => Err(ErrorModel::TypeMismatch("expected quad"@)),
            }
        } else if op is BoolAnd || op is BoolOr {
            match l {
                Value::Bool(a) => match read_reg(top.regs, rhs) {
                    Err(e) => Err(e),
                    Ok(Value::Bool(b)) => set(Value::Bool(if op is BoolAnd { a && b } else { a || b })),
                    Ok(_) => Err(ErrorModel::TypeMismatch("expected bool"@)),
                },
                _ => Err(ErrorModel::TypeMismatch("expected bool"@)),
            }
        } else if op is AddI32 || op is CmpI32Lt || op is CmpI32Le {
            match l {
                Value::I32(a) => match read_reg(top.regs, rhs) {
                    Err(e) => Err(e),
                    Ok(Value::I32(b)) => set(
                        if op is AddI32 {
                            Value::I32(a.wrapping_add(b))
                        } else if op is CmpI32Lt {
                            Value::Bool(a < b)
                        } else {
                            Value::Bool(a <= b)
                        },
                    ),
                    Ok(_) => Err(ErrorModel::TypeMismatch("expected i32"@)),
                },
                _ => Err(ErrorModel::TypeMismatch("expected i32"@)),
            }
        } else {
            match l {
                Value::F64(a) => match read_reg(top.regs, rhs) {
                    Err(e) => Err(e),
                    Ok(Value::F64(b)) => set(
                        Value::F64(
                            fe(
                                if op is AddF64 {
                                    F64Op::Add
                                } else if op is SubF64 {
                                    F64Op::Sub
                                } else if op is MulF64 {
                                    F64Op::Mul
                                } else {
                                    F64Op::Div
                                },
                                a,
                                b,
                            ),
                        ),
                    ),
                    Ok(_) => Err(ErrorModel::TypeMismatch("expected f64"@)),
                },
                _ => Err(ErrorModel::TypeMismatch("expected f64"@)),
            }
        },
    }
}

/// Charges one effect call against the quota.
pub open spec fn effect_check(quotas: RuntimeQuotas, effects: int) -> Option<ErrorModel> {
    quota_check(quotas, QuotaKind::EffectCalls, effects + 1)
}

/// Executes instruction `i` of function `f` on the top frame; `next` is the
/// offset after it and `rel` the length of the instruction stream.
pub open spec fn instr_effect(
    fs: Seq<FunctionBytecode>,
    quotas: RuntimeQuotas,
    f: FunctionBytecode,
    rest: Seq<FrameModel>,
    top: FrameModel,
    tuples: Seq<Seq<Value>>,
    effects: int,
    i: Instr,
    next: int,
    rel: int,
    fe: spec_fn(F64Op, u64, u64) -> u64,
) -> Result<Option<MachineModel>, ErrorModel> {
    let regs = top.regs;
    let set = |dst: u16, v: Value| set_and_go(rest, top, tuples, effects, quotas, dst, v, next);
    let go = |t: FrameModel| resume(rest, t, tuples, effects);
    match i {
        Instr::LoadQ { dst, val } => if val > 3 {
            Err(ErrorModel::BadFormat("invalid quad literal "@ + decimal(val as nat)))
        } else {
            set(dst, Value::Quad(quad_from_bits(val)))
        },
        Instr::LoadBool { dst, val } => set(dst, Value::Bool(val != 0)),
        Instr::LoadI32 { dst, val } => set(dst, Value::I32(val)),
        Instr::LoadU32 { dst, val } => set(dst, Value::U32(val)),
        Instr::LoadF64 { dst, bits } => set(dst, Value::F64(bits)),
        Instr::LoadFx { dst, val } => set(dst, Value::Fx(val)),
        Instr::LoadVar { dst, sid } => if sid >= f.symbol_ids@.len() {
            Err(ErrorModel::InvalidStringId(sid))
        } else {
            let sym = f.symbol_ids@[sid as int].0;
            if top.locals.contains_key(sym) {
                set(dst, top.locals[sym])
            } else {
                Err(
                    ErrorModel::UnknownVariable(
                        if sid < f.strings@.len() {
                            f.strings@[sid as int]@
                        } else {
                            "<unknown>"@
                        },
                    ),
                )
            }
        },
        Instr::StoreVar { sid, src } => if sid >= f.symbol_ids@.len() {
            Err(ErrorModel::InvalidStringId(sid))
        } else {
            match read_reg(regs, src) {
                Err(e) => Err(e),
                Ok(v) => go(
                    FrameModel {
                        pc: next,
                        regs,
                        locals: top.locals.insert(f.symbol_ids@[sid as int].0, v),
                        func: top.func,
                        return_dst: top.return_dst,
                    },
                ),
            }
        },
        Instr::Unary { op, dst, src } => match read_reg(regs, src) {
            Err(e) => Err(e),
            Ok(v) => if op is QNot {
                match v {
                    Value::Quad(q) => set(dst, Value::Quad(spec_quad_not(q))),
                    _ => Err(ErrorModel::TypeMismatch("expected quad"@)),
                }
            } else {
                match v {
                    Value::Bool(b) => set(dst, Value::Bool(!b)),
                    _ => Err(ErrorModel::TypeMismatch("expected bool"@)),
                }
            },
        },
        Instr::Binary { op, dst, lhs, rhs } => binary_effect(
            rest,
            top,
            tuples,
            effects,
            quotas,
            op,
            dst,
            lhs,
            rhs,
            next,
            fe,
        ),
        Instr::TupleGet { dst, src, index } => match read_reg(regs, src) {
            Err(e) => Err(e),
            Ok(Value::Tuple(h)) => if (index as int) < tuples[h as int].len() {
                set(dst, tuples[h as int][index as int])
            } else {
                Err(ErrorModel::BadFormat("tuple-get index out of bounds: "@ + decimal(index as nat)))
            },
            Ok(_) => Err(ErrorModel::TypeMismatch("TUPLE_GET source must be tuple"@)),
        },
        Instr::MakeTuple { dst, items } => match read_regs(regs, items@) {
            Err(e) => Err(e),
            Ok(vs) => set_and_go(
                rest,
                top,
                tuples.push(vs),
                effects,
                quotas,
                dst,
                Value::Tuple(tuples.len() as usize),
                next,
            ),
        },
        Instr::Jmp { addr } => if addr >= rel {
            Err(ErrorModel::InvalidJump(f.name@, addr as usize))
        } else {
            go(at_pc(top, addr as int))
        },
        Instr::JmpIf { cond, addr } => match read_reg(regs, cond) {
            Err(e) => Err(e),
            Ok(Value::Bool(b)) => if !b {
                go(at_pc(top, next))
            } else if addr >= rel {
                Err(ErrorModel::InvalidJump(f.name@, addr as usize))
            } else {
                go(at_pc(top, addr as int))
            },
            Ok(_) => Err(ErrorModel::TypeMismatch("expected bool"@)),
        },
        Instr::Call { flag, dst, sid, args } => if sid >= f.strings@.len() {
            Err(ErrorModel::InvalidStringId(sid))
        } else {
            let callee = f.strings@[sid as int]@;
            match read_regs(regs, args@) {
                Err(e) => Err(e),
                Ok(vs) => match builtin_op(callee) {
                    Some(op) => match builtin_call(callee, op, vs, fe) {
                        Err(e) => Err(e),
                        Ok(v) => if flag != 0 {
                            set(dst, v)
                        } else {
                            go(at_pc(top, next))
                        },
                    },
                    None => match push_frame_model(
                        fs,
                        quotas,
                        rest.push(at_pc(top, next)),
                        callee,
                        vs,
                        if flag != 0 {
                            Some(dst)
                        } else {
                            None
                        },
                    ) {
                        Err(e) => Err(e),
                        Ok(st) => Ok(Some(MachineModel { stack: st, effect_calls: effects, tuples })),
                    },
                },
            }
        },
        Instr::Assert { cond } => match read_reg(regs, cond) {
            Err(e) => Err(e),
            Ok(Value::Bool(true)) => go(at_pc(top, next)),
            Ok(Value::Bool(false)) => Err(ErrorModel::Trap(RuntimeTrap::AssertionFailed)),
            Ok(v) => Err(ErrorModel::TypeMismatch("ASSERT requires bool register, got "@ + value_text(v))),
        },
        Instr::GateRead { dst, device_id, port } => match effect_check(quotas, effects) {
            Some(e) => Err(e),
            None => set_and_go(
                rest,
                top,
                tuples,
                effects + 1,
                quotas,
                dst,
                Value::I32(gate_value(device_id, port)),
                next,
            ),
        },
        Instr::GateWrite { src, .. } => match effect_check(quotas, effects) {
            Some(e) => Err(e),
            None => match read_reg(regs, src) {
                Err(e) => Err(e),
                Ok(_) => resume(rest, at_pc(top, next), tuples, effects + 1),
            },
        },
        Instr::PulseEmit { sid } => match effect_check(quotas, effects) {
            Some(e) => Err(e),
            None => if sid >= f.strings@.len() {
                Err(ErrorModel::InvalidStringId(sid))
            } else {
                resume(rest, at_pc(top, next), tuples, effects + 1)
            },
        },
        Instr::Ret { flag, src } => {
            let rv = if flag != 0 {
                read_reg(regs, src)
            } else {
                Ok(Value::Unit)
            };
            match rv {
                Err(e) => Err(e),
                Ok(v) => if rest.len() == 0 {
                    Ok(None)
                } else {
                    let caller = rest.last();
                    match top.return_dst {
                        None => resume(rest.drop_last(), caller, tuples, effects),
                        Some(d) => match write_reg_model(caller.regs, d as usize, v, quotas) {
                            Err(e) => Err(e),
                            Ok(regs2) => resume(rest.drop_last(), with_regs(caller, regs2), tuples, effects),
                        },
                    }
                },
            }
        },
    }
}

/// One step of the machine: the instruction at the top frame's offset is
/// decoded and executed. `Ok(None)` when the stack is empty or the
/// outermost function returns.
pub open spec fn step_model(
    fs: Seq<FunctionBytecode>,
    quotas: RuntimeQuotas,
    m: MachineModel,
    fe: spec_fn(F64Op, u64, u64) -> u64,
) -> Result<Option<MachineModel>, ErrorModel> {
    if m.stack.len() == 0 {
        Ok(None)
    } else {
        let top = m.stack.last();
        let rest = m.stack.drop_last();
        let f = fs[top.func];
        let code = f.code@;
        let base = f.instr_start as int;
        let rel = if code.len() >= base {
            code.len() - base
        } else {
            0
        };
        if top.pc >= rel {
            Err(ErrorModel::BadFormat("pc out of range in '"@ + f.name@ + "': "@ + decimal(top.pc as nat)))
        } else {
            match decode_at(code, base + top.pc) {
                Err(e) => Err(ErrorModel::BadFormat(format_error_message(e))),
                Ok(i) => instr_effect(
                    fs,
                    quotas,
                    f,
                    rest,
                    top,
                    m.tuples,
                    m.effect_calls,
                    i,
                    top.pc + encode(i).len(),
                    rel,
                    fe,
                ),
            }
        }
    }
}

/// The frames of a stack as plain values.
pub open spec fn stack_model(s: Seq<Frame>) -> Seq<FrameModel> {
    Seq::new(s.len(), |k: int| frame_model(s[k]))
}

/// The values refer only to the first `n` stored tuples.
pub open spec fn values_in_store(vs: Seq<Value>, n: int) -> bool {
    forall|k: int| 0 <= k < vs.len() ==> (#[trigger] vs[k] matches Value::Tuple(h) ==> h < n)
}

/// A frame of a function among the first `nf`, holding only values that
/// refer to the first `nt` stored tuples.
pub open spec fn frame_ok(fr: FrameModel, nf: int, nt: int) -> bool {
    &&& 0 <= fr.func < nf
    &&& values_in_store(fr.regs, nt)
    &&& forall|k: u32| #[trigger] fr.locals.contains_key(k) ==> (fr.locals[k] matches Value::Tuple(h) ==> h < nt)
}

/// A machine over `nf` functions is well formed: its store refers only
/// backwards and its frames only to stored tuples and existing functions.
pub open spec fn machine_ok(m: MachineModel, nf: int) -> bool {
    &&& store_wf(m.tuples)
    &&& forall|k: int| 0 <= k < m.stack.len() ==> frame_ok(#[trigger] m.stack[k], nf, m.tuples.len() as int)
}

/// An executed step agrees with the model: the same outcome, and on
/// `Continue` the same stack, store and effect count.
pub open spec fn outcome_matches(
    r: Result<StepOutcome, RuntimeError>,
    model: Result<Option<MachineModel>, ErrorModel>,
    stack: Seq<Frame>,
    tuples: Seq<Vec<Value>>,
    effects: int,
) -> bool {
    match model {
        Ok(Some(m)) => r == Ok::<StepOutcome, RuntimeError>(StepOutcome::Continue) && stack_model(stack)
            == m.stack && store_view(tuples) == m.tuples && effects == m.effect_calls,
        Ok(None) => r == Ok::<StepOutcome, RuntimeError>(StepOutcome::Finished),
        Err(e) => r matches Err(err) && error_model(err) == e,
    }
}

fn set_and_go_exec(
    stack: &mut Vec<Frame>,
    top: Frame,
    quotas: &RuntimeQuotas,
    dst: u16,
    v: Value,
    next: usize,
    Ghost(tuples): Ghost<Seq<Seq<Value>>>,
    Ghost(effects): Ghost<int>,
) -> (r: Result<StepOutcome, RuntimeError>)
    ensures
        match set_and_go(stack_model(old(stack)@), frame_model(top), tuples, effects, *quotas, dst, v, next as int) {
            Ok(Some(m)) => r == Ok::<StepOutcome, RuntimeError>(StepOutcome::Continue) && stack_model(final(stack)@) == m.stack,
            Ok(None) => false,
            Err(e) => r matches Err(err) && error_model(err) == e,
        },
{
    let mut top = top;
    match write_reg(&mut top.regs, dst, v, quotas) {
        Ok(()) => {},
        Err(e) => return Err(e),
    }
    top.pc = next;
    let ghost before = stack@;
    stack.push(top);
    assert(stack_model(stack@) =~= stack_model(before).push(frame_model(top)));
    Ok(StepOutcome::Continue)
}

fn resume_exec(stack: &mut Vec<Frame>, top: Frame) -> (r: Result<StepOutcome, RuntimeError>)
    ensures
        r == Ok::<StepOutcome, RuntimeError>(StepOutcome::Continue),
        stack_model(final(stack)@) == stack_model(old(stack)@).push(frame_model(top)),
{
    let ghost before = stack@;
    stack.push(top);
    assert(stack_model(stack@) =~= stack_model(before).push(frame_model(top)));
    Ok(StepOutcome::Continue)
}

fn read_regs_exec(regs: &Vec<Value>, rs: &Vec<u16>) -> (r: Result<Vec<Value>, RuntimeError>)
    ensures
        match read_regs(regs@, rs@) {
            Ok(vs) => r matches Ok(v) && v@ == vs,
            Err(e) => r matches Err(err) && error_model(err) == e,
        },
{
    let mut out: Vec<Value> = Vec::new();
    let mut k: usize = 0;
    assert(rs@.take(0) =~= Seq::<u16>::empty());
    while k < rs.len()
        invariant
            k <= rs@.len(),
            read_regs(regs@, rs@.take(k as int)) == Ok::<Seq<Value>, ErrorModel>(out@),
        decreases rs@.len() - k,
    {
        proof {
            assert(rs@.take(k + 1).drop_last() =~= rs@.take(k as int));
            assert(rs@.take(k + 1).last() == rs@[k as int]);
        }
        match get_reg(regs, rs[k]) {
            Ok(v) => out.push(v),
            Err(e) => {
                proof {
                    lemma_read_regs_error_propagates(regs@, rs@, k as int + 1);
                }
                return Err(e);
            },
        }
        k = k + 1;
    }
    assert(rs@.take(rs@.len() as int) =~= rs@);
    Ok(out)
}

proof fn lemma_read_regs_error_propagates(regs: Seq<Value>, rs: Seq<u16>, n: int)
    requires
        0 < n <= rs.len(),
        read_regs(regs, rs.take(n)) is Err,
    ensures
        read_regs(regs, rs) == read_regs(regs, rs.take(n)),
    decreases rs.len() - n,
{
    if n < rs.len() {
        assert(rs.take(n + 1).drop_last() =~= rs.take(n));
        lemma_read_regs_error_propagates(regs, rs, n + 1);
    } else {
        assert(rs.take(n) =~= rs);
    }
}

fn charge_effect(quotas: &RuntimeQuotas, effects: usize) -> (r: Result<usize, RuntimeError>)
    ensures
        match effect_check(*quotas, effects as int) {
            Some(e) => r matches Err(err) && error_model(err) == e,
            None => r == Ok::<usize, RuntimeError>((effects + 1) as usize) && effects + 1 <= usize::MAX,
        },
{
    if effects >= quotas.max_effect_calls {
        let used = if effects == usize::MAX {
            0
        } else {
            effects + 1
        };
        return Err(
            RuntimeError::QuotaExceeded(
                QuotaExceeded { kind: QuotaKind::EffectCalls, limit: quotas.max_effect_calls, used },
            ),
        );
    }
    Ok(effects + 1)
}

/// The outcome of an executed instruction that leaves store and effect count
/// alone agrees with the model.
pub open spec fn stack_outcome(
    r: Result<StepOutcome, RuntimeError>,
    model: Result<Option<MachineModel>, ErrorModel>,
    stack: Seq<Frame>,
) -> bool {
    match model {
        Ok(Some(m)) => r == Ok::<StepOutcome, RuntimeError>(StepOutcome::Continue) && stack_model(stack)
            == m.stack,
        Ok(None) => r == Ok::<StepOutcome, RuntimeError>(StepOutcome::Finished),
        Err(e) => r matches Err(err) && error_model(err) == e,
    }
}

fn eval_f64<F: Fn(F64Op, u64, u64) -> u64>(f64_eval: &F, op: F64Op, a: u64, b: u64) -> (v: u64)
    requires
        is_f64_evaluator(*f64_eval),
    ensures
        v == f64_results(*f64_eval)(op, a, b),
{
    let v = f64_eval(op, a, b);
    assert(f64_eval.ensures((op, a, b), v));
    v
}

fn binary_exec<F: Fn(F64Op, u64, u64) -> u64>(
    stack: &mut Vec<Frame>,
    top: Frame,
    tuples: &Vec<Vec<Value>>,
    quotas: &RuntimeQuotas,
    op: Opcode,
    dst: u16,
    lhs: u16,
    rhs: u16,
    next: usize,
    f64_eval: &F,
    Ghost(effects): Ghost<int>,
) -> (r: Result<StepOutcome, RuntimeError>)
    requires
        is_f64_evaluator(*f64_eval),
        crate::bytecode::is_binary_op(op),
        store_wf(store_view(tuples@)),
        values_in_store(top.regs@, tuples@.len() as int),
    ensures
        stack_outcome(
            r,
            binary_effect(
                stack_model(old(stack)@),
                frame_model(top),
                store_view(tuples@),
                effects,
                *quotas,
                op,
                dst,
                lhs,
                rhs,
                next as int,
                f64_results(*f64_eval),
            ),
            final(stack)@,
        ),
{
    let ghost st = store_view(tuples@);
    let l = match get_reg(&top.regs, lhs) {
        Ok(v) => v,
        Err(e) => return Err(e),
    };
    match op {
        Opcode::CmpEq | Opcode::CmpNe => {
            let rv = match get_reg(&top.regs, rhs) {
                Ok(v) => v,
                Err(e) => return Err(e),
            };
            let eq = match value_eq(tuples, l, rv) {
                Ok(b) => b,
                Err(e) => return Err(e),
            };
            let out = match op {
                Opcode::CmpEq => eq,
                _ => !eq,
            };
            set_and_go_exec(stack, top, quotas, dst, Value::Bool(out), next, Ghost(st), Ghost(effects))
        },
        Opcode::QAnd | Opcode::QOr | Opcode::QImpl => {
            let a = match as_quad(l) {
                Ok(q) => q,
                Err(e) => return Err(e),
            };
            let rv = match get_reg(&top.regs, rhs) {
                Ok(v) => v,
                Err(e) => return Err(e),
            };
            let b = match as_quad(rv) {
                Ok(q) => q,
                Err(e) => return Err(e),
            };
            let q = match op {
                Opcode::QAnd => quad_and(a, b),
                Opcode::QOr => quad_or(a, b),
                _ => quad_impl(a, b),
            };
            set_and_go_exec(stack, top, quotas, dst, Value::Quad(q), next, Ghost(st), Ghost(effects))
        },
        Opcode::BoolAnd | Opcode::BoolOr => {
            let a = match as_bool(l) {
                Ok(x) => x,
                Err(e) => return Err(e),
            };
            let rv = match get_reg(&top.regs, rhs) {
                Ok(v) => v,
                Err(e) => return Err(e),
            };
            let b = match as_bool(rv) {
                Ok(x) => x,
                Err(e) => return Err(e),
            };
            let out = match op {
                Opcode::BoolAnd => a && b,
                _ => a || b,
            };
            set_and_go_exec(stack, top, quotas, dst, Value::Bool(out), next, Ghost(st), Ghost(effects))
        },
        Opcode::AddI32 | Opcode::CmpI32Lt | Opcode::CmpI32Le => {
            let a = match as_i32(l) {
                Ok(x) => x,
                Err(e) => return Err(e),
            };
            let rv = match get_reg(&top.regs, rhs) {
                Ok(v) => v,
                Err(e) => return Err(e),
            };
            let b = match as_i32(rv) {
                Ok(x) => x,
                Err(e) => return Err(e),
            };
            let out = match op {
                Opcode::AddI32 => Value::I32(a.wrapping_add(b)),
                Opcode::CmpI32Lt => Value::Bool(a < b),
                _ => Value::Bool(a <= b),
            };
            set_and_go_exec(stack, top, quotas, dst, out, next, Ghost(st), Ghost(effects))
        },
        _ => {
            let a = match as_f64(l) {
                Ok(x) => x,
                Err(e) => return Err(e),
            };
            let rv = match get_reg(&top.regs, rhs) {
                Ok(v) => v,
                Err(e) => return Err(e),
            };
            let b = match as_f64(rv) {
                Ok(x) => x,
                Err(e) => return Err(e),
            };
            let fop = match op {
                Opcode::AddF64 => F64Op::Add,
                Opcode::SubF64 => F64Op::Sub,
                Opcode::MulF64 => F64Op::Mul,
                _ => F64Op::Div,
            };
            let v = eval_f64(f64_eval, fop, a, b);
            set_and_go_exec(stack, top, quotas, dst, Value::F64(v), next, Ghost(st), Ghost(effects))
        },
    }
}

pub(crate) fn push_signed(m: &mut String, x: i32)
    ensures
        final(m)@ == old(m)@ + signed_decimal(x as int),
{
    if x < 0 {
        proof {
            reveal_strlit("-");
        }
        m.append("-");
        let mag: u64 = (0i64 - x as i64) as u64;
        push_decimal(m, mag);
        assert(m@ =~= old(m)@ + signed_decimal(x as int));
    } else {
        push_decimal(m, x as u64);
    }
}

fn value_text_exec(v: Value) -> (s: String)
    ensures
        s@ == value_text(v),
{
    match v {
        Value::Quad(q) => {
            let mut m = String::from_str("Quad(");
            proof {
                reveal_strlit("N");
                reveal_strlit("F");
                reveal_strlit("T");
                reveal_strlit("S");
            }
            match q {
                QuadVal::N => m.append("N"),
                QuadVal::F => m.append("F"),
                QuadVal::T => m.append("T"),
                QuadVal::S => m.append("S"),
            }
            m.append(")");
            assert(m@ =~= value_text(v));
            m
        },
        Value::Bool(b) => if b {
            String::from_str("Bool(true)")
        } else {
            String::from_str("Bool(false)")
        },
        Value::I32(x) => {
            let mut m = String::from_str("I32(");
            push_signed(&mut m, x);
            m.append(")");
            m
        },
        Value::F64(x) => {
            let mut m = String::from_str("F64(0x");
            push_decimal(&mut m, x);
            m.append(")");
            m
        },
        Value::U32(x) => {
            let mut m = String::from_str("U32(");
            push_decimal(&mut m, x as u64);
            m.append(")");
            m
        },
        Value::Fx(x) => {
            let mut m = String::from_str("Fx(");
            push_signed(&mut m, x);
            m.append(")");
            m
        },
        Value::Tuple(h) => {
            let mut m = String::from_str("Tuple(#");
            push_decimal(&mut m, h as u64);
            m.append(")");
            m
        },
        Value::Unit => String::from_str("Unit"),
    }
}

pub(crate) fn builtin_op_exec(name: &str) -> (r: Option<F64Op>)
    ensures
        r == builtin_op(name@),
{
    if crate::text::str_eq(name, "sin") {
        Some(F64Op::Sin)
    } else if crate::text::str_eq(name, "cos") {
        Some(F64Op::Cos)
    } else if crate::text::str_eq(name, "tan") {
        Some(F64Op::Tan)
    } else if crate::text::str_eq(name, "sqrt") {
        Some(F64Op::Sqrt)
    } else if crate::text::str_eq(name, "abs") {
        Some(F64Op::Abs)
    } else if crate::text::str_eq(name, "pow") {
        Some(F64Op::Pow)
    } else {
        None
    }
}

fn builtin_call_exec<F: Fn(F64Op, u64, u64) -> u64>(
    name: &str,
    op: F64Op,
    args: &Vec<Value>,
    f64_eval: &F,
) -> (r: Result<Value, RuntimeError>)
    requires
        is_f64_evaluator(*f64_eval),
    ensures
        match builtin_call(name@, op, args@, f64_results(*f64_eval)) {
            Ok(v) => r == Ok::<Value, RuntimeError>(v),
            Err(e) => r matches Err(err) && error_model(err) == e,
        },
{
    let n = args.len();
    match op {
        F64Op::Pow => {
            if n != 2 {
                let mut m = String::from_str("builtin '");
                m.append(name);
                m.append("' expects 2 f64 arguments, got ");
                push_decimal(&mut m, n as u64);
                return Err(RuntimeError::TypeMismatchRuntime(m));
            }
            match (args[0], args[1]) {
                (Value::F64(a), Value::F64(b)) => Ok(Value::F64(eval_f64(f64_eval, op, a, b))),
                _ => Err(type_mismatch("expected f64")),
            }
        },
        _ => {
            if n != 1 {
                let mut m = String::from_str("builtin '");
                m.append(name);
                m.append("' expects 1 f64 argument, got ");
                push_decimal(&mut m, n as u64);
                return Err(RuntimeError::TypeMismatchRuntime(m));
            }
            match args[0] {
                Value::F64(a) => Ok(Value::F64(eval_f64(f64_eval, op, a, 0))),
                _ => Err(type_mismatch("expected f64")),
            }
        },
    }
}

fn exec_load<F: Fn(F64Op, u64, u64) -> u64>(
    fs: &Vec<FunctionBytecode>,
    quotas: &RuntimeQuotas,
    f: &FunctionBytecode,
    stack: &mut Vec<Frame>,
    top: Frame,
    tuples: &Vec<Vec<Value>>,
    i: &Instr,
    next: usize,
    rel: usize,
    f64_eval: &F,
    Ghost(effects): Ghost<int>,
) -> (r: Result<StepOutcome, RuntimeError>)
    requires
        is_f64_evaluator(*f64_eval),
        store_wf(store_view(tuples@)),
        frame_ok(frame_model(top), fs@.len() as int, tuples@.len() as int),
        i is LoadQ || i is LoadBool || i is LoadI32 || i is LoadU32 || i is LoadF64 || i is LoadFx,
    ensures
        stack_outcome(
            r,
            instr_effect(
                fs@,
                *quotas,
                *f,
                stack_model(old(stack)@),
                frame_model(top),
                store_view(tuples@),
                effects,
                *i,
                next as int,
                rel as int,
                f64_results(*f64_eval),
            ),
            final(stack)@,
        ),
{
    let ghost st = store_view(tuples@);
    match i {
        Instr::LoadQ { dst, val } => {
            if *val > 3 {
                let mut m = String::from_str("invalid quad literal ");
                push_decimal(&mut m, *val as u64);
                return Err(RuntimeError::BadFormat(m));
            }
            set_and_go_exec(stack, top, quotas, *dst, Value::Quad(crate::quad::u8_to_quad(*val)), next, Ghost(st), Ghost(effects))
        },
        Instr::LoadBool { dst, val } => set_and_go_exec(stack, top, quotas, *dst, Value::Bool(*val != 0), next, Ghost(st), Ghost(effects)),
        Instr::LoadI32 { dst, val } => set_and_go_exec(stack, top, quotas, *dst, Value::I32(*val), next, Ghost(st), Ghost(effects)),
        Instr::LoadU32 { dst, val } => set_and_go_exec(stack, top, quotas, *dst, Value::U32(*val), next, Ghost(st), Ghost(effects)),
        Instr::LoadF64 { dst, bits } => set_and_go_exec(stack, top, quotas, *dst, Value::F64(*bits), next, Ghost(st), Ghost(effects)),
        Instr::LoadFx { dst, val } => set_and_go_exec(stack, top, quotas, *dst, Value::Fx(*val), next, Ghost(st), Ghost(effects)),
        _ => Err(RuntimeError::StackUnderflow),
    }
}

fn exec_var<F: Fn(F64Op, u64, u64) -> u64>(
    fs: &Vec<FunctionBytecode>,
    quotas: &RuntimeQuotas,
    f: &FunctionBytecode,
    stack: &mut Vec<Frame>,
    top: Frame,
    tuples: &Vec<Vec<Value>>,
    i: &Instr,
    next: usize,
    rel: usize,
    f64_eval: &F,
    Ghost(effects): Ghost<int>,
) -> (r: Result<StepOutcome, RuntimeError>)
    requires
        is_f64_evaluator(*f64_eval),
        store_wf(store_view(tuples@)),
        frame_ok(frame_model(top), fs@.len() as int, tuples@.len() as int),
        i is LoadVar || i is StoreVar,
    ensures
        stack_outcome(
            r,
            instr_effect(
                fs@,
                *quotas,
                *f,
                stack_model(old(stack)@),
                frame_model(top),
                store_view(tuples@),
                effects,
                *i,
                next as int,
                rel as int,
                f64_results(*f64_eval),
            ),
            final(stack)@,
        ),
{
    let ghost st = store_view(tuples@);
    match i {
        Instr::LoadVar { dst, sid } => {
            let sym = match lookup_symbol(f, *sid) {
                Ok(x) => x,
                Err(e) => return Err(e),
            };
            match top.locals.get(&sym.0) {
                Some(v) => {
                    let v = *v;
                    set_and_go_exec(stack, top, quotas, *dst, v, next, Ghost(st), Ghost(effects))
                },
                None => {
                    let name = match lookup_str(f, *sid) {
                        Ok(t) => String::from_str(t),
                        Err(_) => String::from_str("<unknown>"),
                    };
                    Err(RuntimeError::UnknownVariable(name))
                },
            }
        },
        Instr::StoreVar { sid, src } => {
            let sym = match lookup_symbol(f, *sid) {
                Ok(x) => x,
                Err(e) => return Err(e),
            };
            let v = match get_reg(&top.regs, *src) {
                Ok(x) => x,
                Err(e) => return Err(e),
            };
            let mut top = top;
            let _ = top.locals.insert(sym.0, v);
            top.pc = next;
            resume_exec(stack, top)
        },
        _ => Err(RuntimeError::StackUnderflow),
    }
}

fn exec_misc<F: Fn(F64Op, u64, u64) -> u64>(
    fs: &Vec<FunctionBytecode>,
    quotas: &RuntimeQuotas,
    f: &FunctionBytecode,
    stack: &mut Vec<Frame>,
    top: Frame,
    tuples: &Vec<Vec<Value>>,
    i: &Instr,
    next: usize,
    rel: usize,
    f64_eval: &F,
    Ghost(effects): Ghost<int>,
) -> (r: Result<StepOutcome, RuntimeError>)
    requires
        is_f64_evaluator(*f64_eval),
        store_wf(store_view(tuples@)),
        frame_ok(frame_model(top), fs@.len() as int, tuples@.len() as int),
        i is Unary || i is TupleGet || i is Jmp || i is JmpIf || i is Assert,
        crate::bytecode::instr_wf(*i),
    ensures
        stack_outcome(
            r,
            instr_effect(
                fs@,
                *quotas,
                *f,
                stack_model(old(stack)@),
                frame_model(top),
                store_view(tuples@),
                effects,
                *i,
                next as int,
                rel as int,
                f64_results(*f64_eval),
            ),
            final(stack)@,
        ),
{
    let ghost st = store_view(tuples@);
    match i {
        Instr::Unary { op, dst, src } => {
            let v = match get_reg(&top.regs, *src) {
                Ok(x) => x,
                Err(e) => return Err(e),
            };
            match op {
                Opcode::QNot => {
                    let q = match as_quad(v) {
                        Ok(x) => x,
                        Err(e) => return Err(e),
                    };
                    set_and_go_exec(stack, top, quotas, *dst, Value::Quad(quad_not(q)), next, Ghost(st), Ghost(effects))
                },
                _ => {
                    let b = match as_bool(v) {
                        Ok(x) => x,
                        Err(e) => return Err(e),
                    };
                    set_and_go_exec(stack, top, quotas, *dst, Value::Bool(!b), next, Ghost(st), Ghost(effects))
                },
            }
        },
        Instr::TupleGet { dst, src, index } => {
            let v = match get_reg(&top.regs, *src) {
                Ok(x) => x,
                Err(e) => return Err(e),
            };
            match v {
                Value::Tuple(h) => {
                    assert(st[h as int] == tuples@[h as int]@);
                    if (*index as usize) < tuples[h].len() {
                        let item = tuples[h][*index as usize];
                        set_and_go_exec(stack, top, quotas, *dst, item, next, Ghost(st), Ghost(effects))
                    } else {
                        let mut m = String::from_str("tuple-get index out of bounds: ");
                        push_decimal(&mut m, *index as u64);
                        Err(RuntimeError::BadFormat(m))
                    }
                },
                _ => Err(type_mismatch("TUPLE_GET source must be tuple")),
            }
        },
        Instr::Jmp { addr } => {
            if *addr as usize >= rel {
                return Err(RuntimeError::InvalidJumpAddress { func: f.name.clone(), addr: *addr as usize });
            }
            let mut top = top;
            top.pc = *addr as usize;
            resume_exec(stack, top)
        },
        Instr::JmpIf { cond, addr } => {
            let v = match get_reg(&top.regs, *cond) {
                Ok(x) => x,
                Err(e) => return Err(e),
            };
            let b = match as_bool(v) {
                Ok(x) => x,
                Err(e) => return Err(e),
            };
            let mut top = top;
            if !b {
                top.pc = next;
                return resume_exec(stack, top);
            }
            if *addr as usize >= rel {
                return Err(RuntimeError::InvalidJumpAddress { func: f.name.clone(), addr: *addr as usize });
            }
            top.pc = *addr as usize;
            resume_exec(stack, top)
        },
        Instr::Assert { cond } => {
            let v = match get_reg(&top.regs, *cond) {
                Ok(x) => x,
                Err(e) => return Err(e),
            };
            match v {
                Value::Bool(true) => {
                    let mut top = top;
                    top.pc = next;
                    resume_exec(stack, top)
                },
                Value::Bool(false) => Err(RuntimeError::Trap(RuntimeTrap::AssertionFailed)),
                other => {
                    let mut m = String::from_str("ASSERT requires bool register, got ");
                    let t = value_text_exec(other);
                    m.append(t.as_str());
                    Err(RuntimeError::TypeMismatchRuntime(m))
                },
            }
        },
        _ => Err(RuntimeError::StackUnderflow),
    }
}

fn exec_make_tuple(
    stack: &mut Vec<Frame>,
    top: Frame,
    tuples: &mut Vec<Vec<Value>>,
    quotas: &RuntimeQuotas,
    dst: u16,
    items: &Vec<u16>,
    next: usize,
    Ghost(effects): Ghost<int>,
) -> (r: Result<StepOutcome, RuntimeError>)
    ensures
        match read_regs(top.regs@, items@) {
            Err(e) => r matches Err(err) && error_model(err) == e,
            Ok(vs) => match set_and_go(
                stack_model(old(stack)@),
                frame_model(top),
                store_view(old(tuples)@).push(vs),
                effects,
                *quotas,
                dst,
                Value::Tuple(old(tuples)@.len() as usize),
                next as int,
            ) {
                Ok(Some(m)) => r == Ok::<StepOutcome, RuntimeError>(StepOutcome::Continue) && stack_model(final(stack)@)
                    == m.stack && store_view(final(tuples)@) == m.tuples,
                Ok(None) => false,
                Err(e) => r matches Err(err) && error_model(err) == e,
            },
        },
{
    let vs = match read_regs_exec(&top.regs, items) {
        Ok(v) => v,
        Err(e) => return Err(e),
    };
    let handle = tuples.len();
    let ghost before = tuples@;
    let ghost vsv = vs@;
    tuples.push(vs);
    assert(store_view(tuples@) =~= store_view(before).push(vsv));
    set_and_go_exec(stack, top, quotas, dst, Value::Tuple(handle), next, Ghost(store_view(tuples@)), Ghost(effects))
}

fn exec_call<F: Fn(F64Op, u64, u64) -> u64>(
    fs: &Vec<FunctionBytecode>,
    quotas: &RuntimeQuotas,
    f: &FunctionBytecode,
    stack: &mut Vec<Frame>,
    top: Frame,
    tuples: &Vec<Vec<Value>>,
    i: &Instr,
    next: usize,
    rel: usize,
    f64_eval: &F,
    Ghost(effects): Ghost<int>,
) -> (r: Result<StepOutcome, RuntimeError>)
    requires
        is_f64_evaluator(*f64_eval),
        i is Call,
    ensures
        stack_outcome(
            r,
            instr_effect(
                fs@,
                *quotas,
                *f,
                stack_model(old(stack)@),
                frame_model(top),
                store_view(tuples@),
                effects,
                *i,
                next as int,
                rel as int,
                f64_results(*f64_eval),
            ),
            final(stack)@,
        ),
{
    let ghost st = store_view(tuples@);
    match i {
        Instr::Call { flag, dst, sid, args } => {
            let callee = match lookup_str(f, *sid) {
                Ok(t) => t,
                Err(e) => return Err(e),
            };
            let vs = match read_regs_exec(&top.regs, args) {
                Ok(v) => v,
                Err(e) => return Err(e),
            };
            match builtin_op_exec(callee) {
                Some(op) => {
                    let v = match builtin_call_exec(callee, op, &vs, f64_eval) {
                        Ok(x) => x,
                        Err(e) => return Err(e),
                    };
                    if *flag != 0 {
                        set_and_go_exec(stack, top, quotas, *dst, v, next, Ghost(st), Ghost(effects))
                    } else {
                        let mut top = top;
                        top.pc = next;
                        resume_exec(stack, top)
                    }
                },
                None => {
                    let ghost tm = frame_model(top);
                    let mut top = top;
                    top.pc = next;
                    let ghost before = stack@;
                    stack.push(top);
                    assert(frame_model(top) == at_pc(tm, next as int));
                    assert(stack_model(stack@) =~= stack_model(before).push(at_pc(tm, next as int)));
                    let ret = if *flag != 0 { Some(*dst) } else { None };
                    match push_frame(fs, quotas, stack, callee, vs, ret) {
                        Ok(()) => Ok(StepOutcome::Continue),
                        Err(e) => Err(e),
                    }
                },
            }
        },
        _ => Err(RuntimeError::StackUnderflow),
    }
}

fn exec_effect<F: Fn(F64Op, u64, u64) -> u64>(
    fs: &Vec<FunctionBytecode>,
    quotas: &RuntimeQuotas,
    f: &FunctionBytecode,
    stack: &mut Vec<Frame>,
    top: Frame,
    effects: &mut usize,
    i: &Instr,
    next: usize,
    rel: usize,
    f64_eval: &F,
    Ghost(tuples): Ghost<Seq<Seq<Value>>>,
) -> (r: Result<StepOutcome, RuntimeError>)
    requires
        i is GateRead || i is GateWrite || i is PulseEmit,
    ensures
        match instr_effect(
            fs@,
            *quotas,
            *f,
            stack_model(old(stack)@),
            frame_model(top),
            tuples,
            *old(effects) as int,
            *i,
            next as int,
            rel as int,
            f64_results(*f64_eval),
        ) {
            Ok(Some(m)) => r == Ok::<StepOutcome, RuntimeError>(StepOutcome::Continue) && stack_model(final(stack)@)
                == m.stack && *final(effects) == m.effect_calls,
            Ok(None) => false,
            Err(e) => r matches Err(err) && error_model(err) == e,
        },
{
    let charged = match charge_effect(quotas, *effects) {
        Ok(n) => n,
        Err(e) => return Err(e),
    };
    match i {
        Instr::GateRead { dst, device_id, port } => {
            let v = ((*device_id as u32) * 65536 + (*port as u32)) as i32;
            let r = set_and_go_exec(stack, top, quotas, *dst, Value::I32(v), next, Ghost(tuples), Ghost(charged as int));
            if r.is_ok() {
                *effects = charged;
            }
            r
        },
        Instr::GateWrite { src, .. } => {
            match get_reg(&top.regs, *src) {
                Ok(_) => {},
                Err(e) => return Err(e),
            }
            let mut top = top;
            top.pc = next;
            *effects = charged;
            resume_exec(stack, top)
        },
        Instr::PulseEmit { sid } => {
            match lookup_str(f, *sid) {
                Ok(_) => {},
                Err(e) => return Err(e),
            }
            let mut top = top;
            top.pc = next;
            *effects = charged;
            resume_exec(stack, top)
        },
        _ => Err(RuntimeError::StackUnderflow),
    }
}

fn exec_ret<F: Fn(F64Op, u64, u64) -> u64>(
    fs: &Vec<FunctionBytecode>,
    quotas: &RuntimeQuotas,
    f: &FunctionBytecode,
    stack: &mut Vec<Frame>,
    top: Frame,
    i: &Instr,
    next: usize,
    rel: usize,
    f64_eval: &F,
    Ghost(tuples): Ghost<Seq<Seq<Value>>>,
    Ghost(effects): Ghost<int>,
) -> (r: Result<StepOutcome, RuntimeError>)
    requires
        i is Ret,
    ensures
        stack_outcome(
            r,
            instr_effect(
                fs@,
                *quotas,
                *f,
                stack_model(old(stack)@),
                frame_model(top),
                tuples,
                effects,
                *i,
                next as int,
                rel as int,
                f64_results(*f64_eval),
            ),
            final(stack)@,
        ),
{
    let (flag, src) = match i {
        Instr::Ret { flag, src } => (*flag, *src),
        _ => (0, 0),
    };
    let v = if flag != 0 {
        match get_reg(&top.regs, src) {
            Ok(x) => x,
            Err(e) => return Err(e),
        }
    } else {
        Value::Unit
    };
    let ghost before = stack@;
    match stack.pop() {
        None => Ok(StepOutcome::Finished),
        Some(caller) => {
            assert(stack_model(before).drop_last() =~= stack_model(stack@));
            assert(stack_model(before).last() == frame_model(caller));
            match top.return_dst {
                None => resume_exec(stack, caller),
                Some(d) => {
                    let mut caller = caller;
                    match write_reg(&mut caller.regs, d, v, quotas) {
                        Ok(()) => {},
                        Err(e) => return Err(e),
                    }
                    resume_exec(stack, caller)
                },
            }
        },
    }
}

fn exec_instr<F: Fn(F64Op, u64, u64) -> u64>(
    fs: &Vec<FunctionBytecode>,
    quotas: &RuntimeQuotas,
    f: &FunctionBytecode,
    stack: &mut Vec<Frame>,
    top: Frame,
    tuples: &mut Vec<Vec<Value>>,
    effects: &mut usize,
    i: &Instr,
    next: usize,
    rel: usize,
    f64_eval: &F,
) -> (r: Result<StepOutcome, RuntimeError>)
    requires
        is_f64_evaluator(*f64_eval),
        crate::bytecode::instr_wf(*i),
        store_wf(store_view(old(tuples)@)),
        frame_ok(frame_model(top), fs@.len() as int, old(tuples)@.len() as int),
    ensures
        outcome_matches(
            r,
            instr_effect(
                fs@,
                *quotas,
                *f,
                stack_model(old(stack)@),
                frame_model(top),
                store_view(old(tuples)@),
                *old(effects) as int,
                *i,
                next as int,
                rel as int,
                f64_results(*f64_eval),
            ),
            final(stack)@,
            final(tuples)@,
            *final(effects) as int,
        ),
{
    let ghost st = store_view(tuples@);
    let ghost e0 = *effects as int;
    match i {
        Instr::LoadQ { .. } | Instr::LoadBool { .. } | Instr::LoadI32 { .. } | Instr::LoadU32 { .. }
        | Instr::LoadF64 { .. } | Instr::LoadFx { .. } => exec_load(
            fs,
            quotas,
            f,
            stack,
            top,
            tuples,
            i,
            next,
            rel,
            f64_eval,
            Ghost(e0),
        ),
        Instr::LoadVar { .. } | Instr::StoreVar { .. } => exec_var(
            fs,
            quotas,
            f,
            stack,
            top,
            tuples,
            i,
            next,
            rel,
            f64_eval,
            Ghost(e0),
        ),
        Instr::Unary { .. } | Instr::TupleGet { .. } | Instr::Jmp { .. } | Instr::JmpIf { .. }
        | Instr::Assert { .. } => exec_misc(
            fs,
            quotas,
            f,
            stack,
            top,
            tuples,
            i,
            next,
            rel,
            f64_eval,
            Ghost(e0),
        ),
        Instr::Binary { op, dst, lhs, rhs } => binary_exec(
            stack,
            top,
            tuples,
            quotas,
            *op,
            *dst,
            *lhs,
            *rhs,
            next,
            f64_eval,
            Ghost(e0),
        ),
        Instr::MakeTuple { dst, items } => exec_make_tuple(
            stack,
            top,
            tuples,
            quotas,
            *dst,
            items,
            next,
            Ghost(e0),
        ),
        Instr::Call { .. } => exec_call(fs, quotas, f, stack, top, tuples, i, next, rel, f64_eval, Ghost(e0)),
        Instr::GateRead { .. } | Instr::GateWrite { .. } | Instr::PulseEmit { .. } => exec_effect(
            fs,
            quotas,
            f,
            stack,
            top,
            effects,
            i,
            next,
            rel,
            f64_eval,
            Ghost(st),
        ),
        Instr::Ret { .. } => exec_ret(fs, quotas, f, stack, top, i, next, rel, f64_eval, Ghost(st), Ghost(e0)),
    }
}

proof fn lemma_effect_respects_same(
    fs: Seq<FunctionBytecode>,
    quotas: RuntimeQuotas,
    f: FunctionBytecode,
    rest: Seq<FrameModel>,
    top: FrameModel,
    tuples: Seq<Seq<Value>>,
    effects: int,
    a: Instr,
    b: Instr,
    next: int,
    rel: int,
    fe: spec_fn(F64Op, u64, u64) -> u64,
)
    requires
        same_instr(a, b),
    ensures
        instr_effect(fs, quotas, f, rest, top, tuples, effects, a, next, rel, fe) == instr_effect(
            fs,
            quotas,
            f,
            rest,
            top,
            tuples,
            effects,
            b,
            next,
            rel,
            fe,
        ),
{
    match (a, b) {
        (Instr::MakeTuple { .. }, Instr::MakeTuple { .. }) => {},
        (Instr::Call { .. }, Instr::Call { .. }) => {},
        _ => {},
    }
}

fn step_parts<F: Fn(F64Op, u64, u64) -> u64>(
    fs: &Vec<FunctionBytecode>,
    quotas: &RuntimeQuotas,
    stack: &mut Vec<Frame>,
    tuples: &mut Vec<Vec<Value>>,
    effects: &mut usize,
    f64_eval: &F,
) -> (r: Result<StepOutcome, RuntimeError>)
    requires
        is_f64_evaluator(*f64_eval),
        machine_ok(
            MachineModel {
                stack: stack_model(old(stack)@),
                effect_calls: *old(effects) as int,
                tuples: store_view(old(tuples)@),
            },
            fs@.len() as int,
        ),
    ensures
        outcome_matches(
            r,
            step_model(
                fs@,
                *quotas,
                MachineModel {
                    stack: stack_model(old(stack)@),
                    effect_calls: *old(effects) as int,
                    tuples: store_view(old(tuples)@),
                },
                f64_results(*f64_eval),
            ),
            final(stack)@,
            final(tuples)@,
            *final(effects) as int,
        ),
{
    let ghost m = MachineModel {
        stack: stack_model(stack@),
        effect_calls: *effects as int,
        tuples: store_view(tuples@),
    };
    let ghost before = stack@;
    let top = match stack.pop() {
        None => return Ok(StepOutcome::Finished),
        Some(t) => t,
    };
    proof {
        assert(stack_model(before).drop_last() =~= stack_model(stack@));
        assert(stack_model(before).last() == frame_model(top));
        assert(frame_ok(m.stack[m.stack.len() - 1], fs@.len() as int, tuples@.len() as int));
    }
    let f = &fs[top.func];
    let code = f.code.as_slice();
    let base = f.instr_start;
    let rel = if code.len() >= base {
        code.len() - base
    } else {
        0
    };
    if top.pc >= rel {
        return Err(RuntimeError::BadFormat(quoted_name_number("pc out of range in '", &f.name, top.pc)));
    }
    match decode_instr(code, base + top.pc) {
        Err(e) => {
            assert(decode_at(code@, base + top.pc) == Err::<Instr, SemcodeFormatError>(e));
            Err(map_format_err(e))
        },
        Ok((i, n)) => {
            proof {
                lemma_decode_at_agrees(code@, base + top.pc, i);
                let j = decode_at(code@, base + top.pc)->Ok_0;
                lemma_effect_respects_same(
                    fs@,
                    *quotas,
                    *f,
                    stack_model(stack@),
                    frame_model(top),
                    store_view(tuples@),
                    *effects as int,
                    i,
                    j,
                    n - base,
                    rel as int,
                    f64_results(*f64_eval),
                );
            }
            exec_instr(fs, quotas, f, stack, top, tuples, effects, &i, n - base, rel, f64_eval)
        },
    }
}

/// Every frame of `s` is well formed over `nf` functions and `nt` tuples.
pub open spec fn stack_ok(s: Seq<FrameModel>, nf: int, nt: int) -> bool {
    forall|k: int| 0 <= k < s.len() ==> frame_ok(#[trigger] s[k], nf, nt)
}

/// `v` refers only to the first `n` stored tuples.
pub open spec fn below(v: Value, n: int) -> bool {
    v matches Value::Tuple(h) ==> h < n
}

proof fn lemma_frame_ok_grows(fr: FrameModel, nf: int, nt: int, nt2: int)
    requires
        frame_ok(fr, nf, nt),
        nt <= nt2,
    ensures
        frame_ok(fr, nf, nt2),
{
}

proof fn lemma_stack_ok_grows(s: Seq<FrameModel>, nf: int, nt: int, nt2: int)
    requires
        stack_ok(s, nf, nt),
        nt <= nt2,
    ensures
        stack_ok(s, nf, nt2),
{
    assert forall|k: int| 0 <= k < s.len() implies frame_ok(#[trigger] s[k], nf, nt2) by {
        lemma_frame_ok_grows(s[k], nf, nt, nt2);
    }
}

proof fn lemma_write_reg_below(regs: Seq<Value>, r: usize, v: Value, quotas: RuntimeQuotas, nt: int)
    requires
        values_in_store(regs, nt),
        below(v, nt),
        write_reg_model(regs, r, v, quotas) is Ok,
    ensures
        values_in_store(write_reg_model(regs, r, v, quotas)->Ok_0, nt),
{
    if (r as int) >= regs.len() {
        let ext = regs + Seq::new((r + 1 - regs.len()) as nat, |k: int| Value::Unit);
        assert forall|k: int| 0 <= k < ext.len() implies (#[trigger] ext[k] matches Value::Tuple(h) ==> h
            < nt) by {
            if k < regs.len() {
                assert(ext[k] == regs[k]);
            }
        }
    }
}

proof fn lemma_read_regs_below(regs: Seq<Value>, rs: Seq<u16>, nt: int)
    requires
        values_in_store(regs, nt),
        read_regs(regs, rs) is Ok,
    ensures
        values_in_store(read_regs(regs, rs)->Ok_0, nt),
    decreases rs.len(),
{
    if rs.len() > 0 {
        lemma_read_regs_below(regs, rs.drop_last(), nt);
    }
}

proof fn lemma_push_frame_ok(s: Seq<FrameModel>, fr: FrameModel, nf: int, nt: int)
    requires
        stack_ok(s, nf, nt),
        frame_ok(fr, nf, nt),
    ensures
        stack_ok(s.push(fr), nf, nt),
{
    assert forall|k: int| 0 <= k < s.push(fr).len() implies frame_ok(#[trigger] s.push(fr)[k], nf, nt) by {
        if k < s.len() {
            assert(s.push(fr)[k] == s[k]);
        }
    }
}

proof fn lemma_set_ok(
    rest: Seq<FrameModel>,
    top: FrameModel,
    tuples: Seq<Seq<Value>>,
    effects: int,
    quotas: RuntimeQuotas,
    dst: u16,
    v: Value,
    next: int,
    nf: int,
)
    requires
        store_wf(tuples),
        stack_ok(rest, nf, tuples.len() as int),
        frame_ok(top, nf, tuples.len() as int),
        below(v, tuples.len() as int),
        set_and_go(rest, top, tuples, effects, quotas, dst, v, next) matches Ok(Some(_)),
    ensures
        machine_ok(set_and_go(rest, top, tuples, effects, quotas, dst, v, next)->Ok_0->Some_0, nf),
{
    let nt = tuples.len() as int;
    lemma_write_reg_below(top.regs, dst as usize, v, quotas, nt);
    let regs = write_reg_model(top.regs, dst as usize, v, quotas)->Ok_0;
    let t = at_pc(with_regs(top, regs), next);
    assert(frame_ok(t, nf, nt));
    lemma_push_frame_ok(rest, t, nf, nt);
}

proof fn lemma_set_ok_all(
    rest: Seq<FrameModel>,
    top: FrameModel,
    tuples: Seq<Seq<Value>>,
    quotas: RuntimeQuotas,
    nf: int,
)
    requires
        store_wf(tuples),
        stack_ok(rest, nf, tuples.len() as int),
        frame_ok(top, nf, tuples.len() as int),
    ensures
        forall|effects: int, dst: u16, v: Value, next: int|
            below(v, tuples.len() as int) && (#[trigger] set_and_go(
                rest,
                top,
                tuples,
                effects,
                quotas,
                dst,
                v,
                next,
            ) matches Ok(Some(_))) ==> machine_ok(
                set_and_go(rest, top, tuples, effects, quotas, dst, v, next)->Ok_0->Some_0,
                nf,
            ),
        forall|t: FrameModel, effects: int|
            frame_ok(t, nf, tuples.len() as int) ==> machine_ok(
                (#[trigger] resume(rest, t, tuples, effects))->Ok_0->Some_0,
                nf,
            ),
{
    assert forall|effects: int, dst: u16, v: Value, next: int|
        below(v, tuples.len() as int) && (#[trigger] set_and_go(
            rest,
            top,
            tuples,
            effects,
            quotas,
            dst,
            v,
            next,
        ) matches Ok(Some(_))) implies machine_ok(
        set_and_go(rest, top, tuples, effects, quotas, dst, v, next)->Ok_0->Some_0,
        nf,
    ) by {
        lemma_set_ok(rest, top, tuples, effects, quotas, dst, v, next, nf);
    }
    assert forall|t: FrameModel, effects: int| frame_ok(t, nf, tuples.len() as int) implies machine_ok(
        (#[trigger] resume(rest, t, tuples, effects))->Ok_0->Some_0,
        nf,
    ) by {
        lemma_push_frame_ok(rest, t, nf, tuples.len() as int);
    }
}

/// Law: a step that goes on leaves a well-formed machine well formed; the
/// tuple store still refers only backwards and every frame only to stored
/// tuples and existing functions.
pub proof fn lemma_step_keeps_machine_ok(
    fs: Seq<FunctionBytecode>,
    quotas: RuntimeQuotas,
    m0: MachineModel,
    fe: spec_fn(F64Op, u64, u64) -> u64,
)
    requires
        machine_ok(m0, fs.len() as int),
        step_model(fs, quotas, m0, fe) matches Ok(Some(_)),
    ensures
        machine_ok(step_model(fs, quotas, m0, fe)->Ok_0->Some_0, fs.len() as int),
{
    let nf = fs.len() as int;
    let nt = m0.tuples.len() as int;
    let tuples = m0.tuples;
    let effects = m0.effect_calls;
    let top = m0.stack.last();
    let rest = m0.stack.drop_last();
    assert(frame_ok(m0.stack[m0.stack.len() - 1], nf, nt));
    assert forall|k: int| 0 <= k < rest.len() implies frame_ok(#[trigger] rest[k], nf, nt) by {
        assert(rest[k] == m0.stack[k]);
    }
    let f = fs[top.func];
    let code = f.code@;
    let base = f.instr_start as int;
    let rel = if code.len() >= base {
        code.len() - base
    } else {
        0
    };
    let i = decode_at(code, base + top.pc)->Ok_0;
    let next = top.pc + encode(i).len();
    lemma_set_ok_all(rest, top, tuples, quotas, nf);
    let r = instr_effect(fs, quotas, f, rest, top, tuples, effects, i, next, rel, fe);
    assert(r == step_model(fs, quotas, m0, fe));
    match i {
        Instr::TupleGet { dst, src, index } => {
            let h = top.regs[src as int]->Tuple_0;
            assert(top.regs[src as int] matches Value::Tuple(hh) ==> hh < nt);
            assert(refs_below(tuples[h as int], h as int));
            assert(tuples[h as int][index as int] matches Value::Tuple(hh) ==> hh < h);
        },
        Instr::MakeTuple { dst, items } => {
            lemma_read_regs_below(top.regs, items@, nt);
            let vs = read_regs(top.regs, items@)->Ok_0;
            let t2 = tuples.push(vs);
            assert forall|t: int| 0 <= t < t2.len() implies refs_below(#[trigger] t2[t], t) by {
                if t < tuples.len() {
                    assert(t2[t] == tuples[t]);
                }
            }
            lemma_stack_ok_grows(rest, nf, nt, nt + 1);
            lemma_frame_ok_grows(top, nf, nt, nt + 1);
            lemma_set_ok(rest, top, t2, effects, quotas, dst, Value::Tuple(nt as usize), next, nf);
        },
        Instr::Call { flag, dst, sid, args } => {
            if sid < f.strings@.len() {
                let callee = f.strings@[sid as int]@;
                if read_regs(top.regs, args@) is Ok && builtin_op(callee) is None {
                    lemma_read_regs_below(top.regs, args@, nt);
                    let vs = read_regs(top.regs, args@)->Ok_0;
                    lemma_function_index_bound(fs, callee, 0);
                    let below_stack = rest.push(at_pc(top, next));
                    lemma_push_frame_ok(rest, at_pc(top, next), nf, nt);
                    let fi = function_index_from(fs, callee, 0)->Some_0;
                    let n = if vs.len() > 16 {
                        vs.len() as int
                    } else {
                        16int
                    };
                    let fr = FrameModel {
                        pc: 0,
                        regs: vs + Seq::new((n - vs.len()) as nat, |k: int| Value::Unit),
                        locals: Map::empty(),
                        func: fi,
                        return_dst: if flag != 0 {
                            Some(dst)
                        } else {
                            None
                        },
                    };
                    assert forall|k: int| 0 <= k < fr.regs.len() implies (#[trigger] fr.regs[k] matches Value::Tuple(
                        hh,
                    ) ==> hh < nt) by {
                        if k < vs.len() {
                            assert(fr.regs[k] == vs[k]);
                        }
                    }
                    assert(frame_ok(fr, nf, nt));
                    lemma_push_frame_ok(below_stack, fr, nf, nt);
                }
            }
        },
        Instr::Ret { flag, src } => {
            if rest.len() > 0 {
                let caller = rest.last();
                assert(frame_ok(rest[rest.len() - 1], nf, nt));
                let rest2 = rest.drop_last();
                assert forall|k: int| 0 <= k < rest2.len() implies frame_ok(#[trigger] rest2[k], nf, nt) by {
                    assert(rest2[k] == rest[k]);
                }
                let v = if flag != 0 {
                    read_reg(top.regs, src)
                } else {
                    Ok(Value::Unit)
                };
                if v is Ok {
                    let vv = v->Ok_0;
                    assert(below(vv, nt));
                    lemma_push_frame_ok(rest2, caller, nf, nt);
                    if let Some(d) = top.return_dst {
                        if write_reg_model(caller.regs, d as usize, vv, quotas) is Ok {
                            lemma_write_reg_below(caller.regs, d as usize, vv, quotas, nt);
                            let regs2 = write_reg_model(caller.regs, d as usize, vv, quotas)->Ok_0;
                            lemma_push_frame_ok(rest2, with_regs(caller, regs2), nf, nt);
                        }
                    }
                }
            }
        },
        _ => {},
    }
}

/// Why a run of `entry` cannot start over functions named `names`, if it
/// cannot: no such function, or the first frame is over a quota.
pub open spec fn start_error(names: Seq<Seq<char>>, quotas: RuntimeQuotas, entry: Seq<char>) -> Option<
    ErrorModel,
> {
    if !names.contains(entry) {
        Some(ErrorModel::UnknownFunction(entry))
    } else {
        match quota_check(quotas, QuotaKind::Frames, 1) {
            Some(e) => Some(e),
            None => if quota_check(quotas, QuotaKind::StackDepth, 1) is Some {
                Some(ErrorModel::StackOverflow)
            } else {
                quota_check(quotas, QuotaKind::Registers, 16)
            },
        }
    }
}

/// The frame a run starts with: function `fi` at offset 0, sixteen `Unit`
/// registers, no locals, nobody waiting for the result.
pub open spec fn entry_frame(fi: int) -> FrameModel {
    FrameModel {
        pc: 0,
        regs: Seq::new(16, |k: int| Value::Unit),
        locals: Map::empty(),
        func: fi,
        return_dst: None,
    }
}

proof fn lemma_function_index_from(fs: Seq<FunctionBytecode>, name: Seq<char>, k: int)
    requires
        0 <= k,
    ensures
        match function_index_from(fs, name, k) {
            Some(i) => k <= i < fs.len() && fs[i].name@ == name && forall|j: int|
                k <= j < i ==> (#[trigger] fs[j]).name@ != name,
            None => forall|j: int| k <= j < fs.len() ==> (#[trigger] fs[j]).name@ != name,
        },
    decreases fs.len() - k,
{
    if k < fs.len() && fs[k].name@ != name {
        lemma_function_index_from(fs, name, k + 1);
    }
}

/// A machine ready to run: its functions, its call stack, its
/// configuration, the effect calls made so far, the runtime symbols and
/// the tuple store.
pub struct VM {
    functions: Vec<FunctionBytecode>,
    callstack: Vec<Frame>,
    config: ExecutionConfig,
    effect_calls: usize,
    symbols: RuntimeSymbolTable,
    tuples: Vec<Vec<Value>>,
}

impl VM {
    #[verifier::type_invariant]
    spec fn wf(&self) -> bool {
        machine_ok(
            MachineModel {
                stack: stack_model(self.callstack@),
                effect_calls: self.effect_calls as int,
                tuples: store_view(self.tuples@),
            },
            self.functions@.len() as int,
        )
    }

    /// The changing part of the machine as plain values.
    pub closed spec fn machine(&self) -> MachineModel {
        MachineModel {
            stack: stack_model(self.callstack@),
            effect_calls: self.effect_calls as int,
            tuples: store_view(self.tuples@),
        }
    }

    /// The functions the machine runs.
    pub closed spec fn function_list(&self) -> Seq<FunctionBytecode> {
        self.functions@
    }

    /// The quotas the machine runs under.
    pub closed spec fn quotas(&self) -> RuntimeQuotas {
        self.config.quotas
    }

    /// The runtime symbols of the machine's functions.
    pub closed spec fn symbol_names(&self) -> Seq<Seq<char>> {
        self.symbols@
    }

    /// The configuration the machine runs under: its context and quotas.
    pub closed spec fn configuration(&self) -> ExecutionConfig {
        self.config
    }

    /// The machine has just been started on the functions `fs` under
    /// `quotas`: it holds them in order with their runtime symbols, has made
    /// no effect call, has an empty tuple store, and has one frame, the entry
    /// frame of the first function named `entry`.
    pub open spec fn started(&self, fs: Seq<FunctionImage>, quotas: RuntimeQuotas, entry: Seq<char>) -> bool {
        &&& self.function_list().len() == fs.len()
        &&& forall|k: int| 0 <= k < fs.len() ==> image_of(#[trigger] self.function_list()[k]) == fs[k]
        &&& self.symbol_names() == intern_functions(Seq::empty(), fs).0
        &&& self.quotas() == quotas
        &&& self.machine().effect_calls == 0
        &&& self.machine().tuples == Seq::<Seq<Value>>::empty()
        &&& self.machine().stack.len() == 1
        &&& {
            let fi = self.machine().stack[0].func;
            &&& self.machine().stack[0] == entry_frame(fi)
            &&& 0 <= fi < fs.len()
            &&& fs[fi].name == entry
            &&& forall|j: int| 0 <= j < fi ==> (#[trigger] fs[j]).name != entry
        }
    }

    /// Loads an image and calls `entry` with no arguments under `config`.
    pub fn new(bytes: &[u8], entry: &str, config: ExecutionConfig) -> (r: Result<VM, RuntimeError>)
        ensures
            match spec_parse(bytes@) {
                Err((fail, name)) => r matches Err(e) && parse_error_matches(e, fail, name, bytes@),
                Ok((_, fs)) => match start_error(names_of_images(fs), config.quotas, entry@) {
                    Some(e) => r matches Err(err) && error_model(err) == e,
                    None => r matches Ok(vm) && vm.started(fs, config.quotas, entry@) && vm.configuration() == config,
                },
            },
    {
        let (_, symbols, functions) = match parse_semcode(bytes) {
            Ok(p) => p,
            Err(e) => return Err(e),
        };
        let ghost fs = spec_parse(bytes@)->Ok_0.1;
        proof {
            lemma_function_index_from(functions@, entry@, 0);
            let names = names_of_images(fs);
            if function_index_from(functions@, entry@, 0) is None {
                assert forall|j: int| 0 <= j < names.len() implies names[j] != entry@ by {
                    assert(image_of(functions@[j]) == fs[j]);
                }
            } else {
                let fi = function_index_from(functions@, entry@, 0)->Some_0;
                assert(image_of(functions@[fi]) == fs[fi]);
                assert(names[fi] == entry@);
            }
        }
        let mut stack: Vec<Frame> = Vec::new();
        let ghost empty = stack@;
        match push_frame(&functions, &config.quotas, &mut stack, entry, Vec::new(), None) {
            Ok(()) => {},
            Err(e) => {
                assert(Seq::new(empty.len(), |k: int| frame_model(empty[k])) =~= Seq::<FrameModel>::empty());
                return Err(e);
            },
        }
        proof {
            assert(Seq::new(empty.len(), |k: int| frame_model(empty[k])) =~= Seq::<FrameModel>::empty());
            let fi = function_index_from(functions@, entry@, 0)->Some_0;
            assert(stack_model(stack@) =~= seq![entry_frame(fi)]);
            assert forall|j: int| 0 <= j < fi implies (#[trigger] fs[j]).name != entry@ by {
                assert(image_of(functions@[j]) == fs[j]);
            }
            assert(image_of(functions@[fi]) == fs[fi]);
        }
        let tuples: Vec<Vec<Value>> = Vec::new();
        assert(store_view(tuples@) =~= Seq::<Seq<Value>>::empty());
        Ok(VM { functions, callstack: stack, config, effect_calls: 0, symbols, tuples })
    }

    /// Checks an image with the static checker, then loads it and calls
    /// `entry` as `new` does; a rejection is the checker's report.
    pub fn new_verified(bytes: &[u8], entry: &str, config: ExecutionConfig) -> (r: Result<VM, RuntimeError>)
        ensures
            match crate::static_check::program_verdict(bytes@) {
                Err(ds) => r matches Err(e) && error_model(e) == ErrorModel::Rejected(ds),
                Ok(_) => match spec_parse(bytes@) {
                    Err((fail, name)) => r matches Err(e) && parse_error_matches(e, fail, name, bytes@),
                    Ok((_, fs)) => match start_error(names_of_images(fs), config.quotas, entry@) {
                        Some(e) => r matches Err(err) && error_model(err) == e,
                        None => r matches Ok(vm) && vm.started(fs, config.quotas, entry@) && vm.configuration() == config,
                    },
                },
            },
    {
        match crate::static_check::verify_semcode(bytes) {
            Ok(_) => {},
            Err(rep) => return Err(RuntimeError::VerifierRejected(rep)),
        }
        VM::new(bytes, entry, config)
    }

    /// How many frames the call stack holds.
    pub fn call_depth(&self) -> (n: usize)
        ensures
            n == self.machine().stack.len(),
    {
        self.callstack.len()
    }

    /// How many effect calls the run has made.
    pub fn effect_calls(&self) -> (n: usize)
        ensures
            n == self.machine().effect_calls,
    {
        self.effect_calls
    }

    /// Register `r` of the innermost frame, if there is a frame with such a
    /// register.
    pub fn top_register(&self, r: u16) -> (v: Option<Value>)
        ensures
            v == (if self.machine().stack.len() > 0 && (r as int) < self.machine().stack.last().regs.len() {
                Some(self.machine().stack.last().regs[r as int])
            } else {
                None::<Value>
            }),
    {
        let n = self.callstack.len();
        if n == 0 {
            return None;
        }
        let top = &self.callstack[n - 1];
        if (r as usize) < top.regs.len() {
            Some(top.regs[r as usize])
        } else {
            None
        }
    }

    /// The items of stored tuple `h`, if it exists.
    pub fn tuple_items(&self, h: usize) -> (items: Option<Vec<Value>>)
        ensures
            match items {
                Some(v) => h < self.machine().tuples.len() && v@ == self.machine().tuples[h as int],
                None => h >= self.machine().tuples.len(),
            },
    {
        if h < self.tuples.len() {
            Some(self.tuples[h].clone())
        } else {
            None
        }
    }

    /// The configuration the machine runs under.
    pub fn config(&self) -> (c: ExecutionConfig)
        ensures
            c == self.configuration(),
            c.quotas == self.quotas(),
    {
        self.config
    }

    /// The runtime symbols of the machine's functions.
    pub fn symbols(&self) -> (t: &RuntimeSymbolTable)
        ensures
            t@ == self.symbol_names(),
    {
        &self.symbols
    }

    /// The functions the machine runs, in image order.
    pub fn functions(&self) -> (fs: &Vec<FunctionBytecode>)
        ensures
            fs@ == self.function_list(),
    {
        &self.functions
    }

    /// Executes one instruction; `f64_eval` computes `f64` operations on bit
    /// patterns. Once the run has finished or failed the machine holds no frames
    /// and no tuples, and keeps its count of effect calls.
    pub fn step<F: Fn(F64Op, u64, u64) -> u64>(&mut self, f64_eval: &F) -> (r: Result<StepOutcome, RuntimeError>)
        requires
            is_f64_evaluator(*f64_eval),
        ensures
            final(self).function_list() == old(self).function_list(),
            final(self).quotas() == old(self).quotas(),
            final(self).configuration() == old(self).configuration(),
            final(self).symbol_names() == old(self).symbol_names(),
            r != Ok::<StepOutcome, RuntimeError>(StepOutcome::Continue) ==> final(self).machine() == (MachineModel {
                stack: Seq::empty(),
                effect_calls: old(self).machine().effect_calls,
                tuples: Seq::empty(),
            }),
            match step_model(
                old(self).function_list(),
                old(self).quotas(),
                old(self).machine(),
                f64_results(*f64_eval),
            ) {
                Ok(Some(m)) => r == Ok::<StepOutcome, RuntimeError>(StepOutcome::Continue)
                    && final(self).machine() == m,
                Ok(None) => r == Ok::<StepOutcome, RuntimeError>(StepOutcome::Finished),
                Err(e) => r matches Err(err) && error_model(err) == e,
            },
    {
        proof {
            use_type_invariant(&*self);
        }
        let mut stack: Vec<Frame> = Vec::new();
        std::mem::swap(&mut stack, &mut self.callstack);
        let mut tuples: Vec<Vec<Value>> = Vec::new();
        std::mem::swap(&mut tuples, &mut self.tuples);
        let mut effects = self.effect_calls;
        let ghost m0 = MachineModel {
            stack: stack_model(stack@),
            effect_calls: effects as int,
            tuples: store_view(tuples@),
        };
        let r = step_parts(&self.functions, &self.config.quotas, &mut stack, &mut tuples, &mut effects, f64_eval);
        match r {
            Ok(StepOutcome::Continue) => {
                proof {
                    lemma_step_keeps_machine_ok(
                        self.functions@,
                        self.config.quotas,
                        m0,
                        f64_results(*f64_eval),
                    );
                }
                self.tuples = tuples;
                self.effect_calls = effects;
                self.callstack = stack;
                proof {
                    assert(self.machine() =~= MachineModel {
                        stack: stack_model(stack@),
                        effect_calls: effects as int,
                        tuples: store_view(tuples@),
                    });
                }
            },
            _ => {
                proof {
                    assert(self.machine() =~= (MachineModel {
                        stack: Seq::empty(),
                        effect_calls: m0.effect_calls,
                        tuples: Seq::empty(),
                    }));
                }
            },
        }
        r
    }
}

/// The machine `m` after its top frame wrote `v` to register `dst` and moved
/// on by `n` bytes, everything else as it was.
pub open spec fn advanced_with(m: MachineModel, dst: u16, v: Value, n: int) -> MachineModel {
    let top = m.stack.last();
    MachineModel {
        stack: m.stack.drop_last().push(
            FrameModel {
                pc: top.pc + n,
                regs: top.regs.update(dst as int, v),
                locals: top.locals,
                func: top.func,
                return_dst: top.return_dst,
            },
        ),
        effect_calls: m.effect_calls,
        tuples: m.tuples,
    }
}

/// The top frame of `m` is about to run instruction `i`: the frame's
/// function exists and the bytes at its pc decode to `i`.
pub open spec fn about_to_run(fs: Seq<FunctionBytecode>, m: MachineModel, i: Instr) -> bool {
    &&& m.stack.len() > 0
    &&& 0 <= m.stack.last().func < fs.len()
    &&& fs[m.stack.last().func].instr_start <= fs[m.stack.last().func].code@.len()
    &&& 0 <= m.stack.last().pc < fs[m.stack.last().func].code@.len() - fs[m.stack.last().func].instr_start
    &&& decode_at(
        fs[m.stack.last().func].code@,
        fs[m.stack.last().func].instr_start + m.stack.last().pc,
    ) == Ok::<Instr, SemcodeFormatError>(i)
}

/// Law: the machine's integer operations. On two `I32` registers `a` and
/// `b`, `CMP_I32_LT` writes whether `a < b`, `CMP_I32_LE` whether `a <= b`,
/// `CMP_EQ` and `CMP_NE` whether they are equal or not, and `ADD_I32` the
/// sum taken modulo 2^32; the frame moves past the instruction and nothing
/// else changes.
pub proof fn lemma_step_i32_ops(
    fs: Seq<FunctionBytecode>,
    quotas: RuntimeQuotas,
    m: MachineModel,
    fe: spec_fn(F64Op, u64, u64) -> u64,
    op: Opcode,
    dst: u16,
    lhs: u16,
    rhs: u16,
    a: i32,
    b: i32,
)
    requires
        about_to_run(fs, m, Instr::Binary { op, dst, lhs, rhs }),
        (lhs as int) < m.stack.last().regs.len(),
        (rhs as int) < m.stack.last().regs.len(),
        (dst as int) < m.stack.last().regs.len(),
        m.stack.last().regs[lhs as int] == Value::I32(a),
        m.stack.last().regs[rhs as int] == Value::I32(b),
        store_wf(m.tuples),
    ensures
        ({
            let n = encode(Instr::Binary { op, dst, lhs, rhs }).len() as int;
            let r = step_model(fs, quotas, m, fe);
            &&& op is CmpI32Lt ==> r == Ok::<Option<MachineModel>, ErrorModel>(
                Some(advanced_with(m, dst, Value::Bool(a < b), n)),
            )
            &&& op is CmpI32Le ==> r == Ok::<Option<MachineModel>, ErrorModel>(
                Some(advanced_with(m, dst, Value::Bool(a <= b), n)),
            )
            &&& op is CmpEq ==> r == Ok::<Option<MachineModel>, ErrorModel>(
                Some(advanced_with(m, dst, Value::Bool(a == b), n)),
            )
            &&& op is CmpNe ==> r == Ok::<Option<MachineModel>, ErrorModel>(
                Some(advanced_with(m, dst, Value::Bool(a != b), n)),
            )
            &&& op is AddI32 ==> exists|v: i32|
                (v - (a + b)) % 0x1_0000_0000 == 0 && r == Ok::<Option<MachineModel>, ErrorModel>(
                    Some(advanced_with(m, dst, Value::I32(v), n)),
                )
        }),
{
    let n = encode(Instr::Binary { op, dst, lhs, rhs }).len() as int;
    let top = m.stack.last();
    assert(m.stack.drop_last().push(at_pc(with_regs(top, top.regs.update(dst as int, Value::Bool(a < b))), top.pc + n))
        == advanced_with(m, dst, Value::Bool(a < b), n).stack);
    assert(m.stack.drop_last().push(at_pc(with_regs(top, top.regs.update(dst as int, Value::Bool(a <= b))), top.pc + n))
        == advanced_with(m, dst, Value::Bool(a <= b), n).stack);
    assert(m.stack.drop_last().push(at_pc(with_regs(top, top.regs.update(dst as int, Value::Bool(a == b))), top.pc + n))
        == advanced_with(m, dst, Value::Bool(a == b), n).stack);
    assert(m.stack.drop_last().push(at_pc(with_regs(top, top.regs.update(dst as int, Value::Bool(a != b))), top.pc + n))
        == advanced_with(m, dst, Value::Bool(a != b), n).stack);
    if op is AddI32 {
        let v = a.wrapping_add(b);
        assert((v - (a + b)) % 0x1_0000_0000 == 0);
        assert(m.stack.drop_last().push(at_pc(with_regs(top, top.regs.update(dst as int, Value::I32(v))), top.pc + n))
            == advanced_with(m, dst, Value::I32(v), n).stack);
        assert(step_model(fs, quotas, m, fe) == Ok::<Option<MachineModel>, ErrorModel>(
            Some(advanced_with(m, dst, Value::I32(v), n)),
        ));
    }
    if op is CmpEq || op is CmpNe {
        assert(spec_value_eq(m.tuples, Value::I32(a), Value::I32(b)) == Some(a == b));
    }
}

/// Law: the machine's boolean operations. On two `Bool` registers `a` and
/// `b`, `BOOL_AND` writes `a && b` and `BOOL_OR` writes `a || b`; the frame
/// moves past the instruction and nothing else changes.
pub proof fn lemma_step_bool_ops(
    fs: Seq<FunctionBytecode>,
    quotas: RuntimeQuotas,
    m: MachineModel,
    fe: spec_fn(F64Op, u64, u64) -> u64,
    op: Opcode,
    dst: u16,
    lhs: u16,
    rhs: u16,
    a: bool,
    b: bool,
)
    requires
        about_to_run(fs, m, Instr::Binary { op, dst, lhs, rhs }),
        (lhs as int) < m.stack.last().regs.len(),
        (rhs as int) < m.stack.last().regs.len(),
        (dst as int) < m.stack.last().regs.len(),
        m.stack.last().regs[lhs as int] == Value::Bool(a),
        m.stack.last().regs[rhs as int] == Value::Bool(b),
    ensures
        ({
            let n = encode(Instr::Binary { op, dst, lhs, rhs }).len() as int;
            let r = step_model(fs, quotas, m, fe);
            &&& op is BoolAnd ==> r == Ok::<Option<MachineModel>, ErrorModel>(
                Some(advanced_with(m, dst, Value::Bool(a && b), n)),
            )
            &&& op is BoolOr ==> r == Ok::<Option<MachineModel>, ErrorModel>(
                Some(advanced_with(m, dst, Value::Bool(a || b), n)),
            )
        }),
{
    let n = encode(Instr::Binary { op, dst, lhs, rhs }).len() as int;
    let top = m.stack.last();
    assert(m.stack.drop_last().push(at_pc(with_regs(top, top.regs.update(dst as int, Value::Bool(a && b))), top.pc + n))
        == advanced_with(m, dst, Value::Bool(a && b), n).stack);
    assert(m.stack.drop_last().push(at_pc(with_regs(top, top.regs.update(dst as int, Value::Bool(a || b))), top.pc + n))
        == advanced_with(m, dst, Value::Bool(a || b), n).stack);
}

/// Law: the machine's `f64` operations take their operands in order. On two
/// `F64` registers `lhs` = `a` and `rhs` = `b`, `ADD_F64`, `SUB_F64`,
/// `MUL_F64` and `DIV_F64` write what the evaluator gives for the operation
/// on `(a, b)`, in that order.
pub proof fn lemma_step_f64_ops(
    fs: Seq<FunctionBytecode>,
    quotas: RuntimeQuotas,
    m: MachineModel,
    fe: spec_fn(F64Op, u64, u64) -> u64,
    op: Opcode,
    dst: u16,
    lhs: u16,
    rhs: u16,
    a: u64,
    b: u64,
)
    requires
        about_to_run(fs, m, Instr::Binary { op, dst, lhs, rhs }),
        (lhs as int) < m.stack.last().regs.len(),
        (rhs as int) < m.stack.last().regs.len(),
        (dst as int) < m.stack.last().regs.len(),
        m.stack.last().regs[lhs as int] == Value::F64(a),
        m.stack.last().regs[rhs as int] == Value::F64(b),
    ensures
        ({
            let n = encode(Instr::Binary { op, dst, lhs, rhs }).len() as int;
            let r = step_model(fs, quotas, m, fe);
            &&& op is AddF64 ==> r == Ok::<Option<MachineModel>, ErrorModel>(
                Some(advanced_with(m, dst, Value::F64(fe(F64Op::Add, a, b)), n)),
            )
            &&& op is SubF64 ==> r == Ok::<Option<MachineModel>, ErrorModel>(
                Some(advanced_with(m, dst, Value::F64(fe(F64Op::Sub, a, b)), n)),
            )
            &&& op is MulF64 ==> r == Ok::<Option<MachineModel>, ErrorModel>(
                Some(advanced_with(m, dst, Value::F64(fe(F64Op::Mul, a, b)), n)),
            )
            &&& op is DivF64 ==> r == Ok::<Option<MachineModel>, ErrorModel>(
                Some(advanced_with(m, dst, Value::F64(fe(F64Op::Div, a, b)), n)),
            )
        }),
{
    let n = encode(Instr::Binary { op, dst, lhs, rhs }).len() as int;
    let top = m.stack.last();
    let k = if op is AddF64 {
        F64Op::Add
    } else if op is SubF64 {
        F64Op::Sub
    } else if op is MulF64 {
        F64Op::Mul
    } else {
        F64Op::Div
    };
    assert(m.stack.drop_last().push(at_pc(with_regs(top, top.regs.update(dst as int, Value::F64(fe(k, a, b)))), top.pc + n))
        == advanced_with(m, dst, Value::F64(fe(k, a, b)), n).stack);
}

/// Law: `BOOL_NOT` on a `Bool` register `a` writes `!a`.
pub proof fn lemma_step_bool_not(
    fs: Seq<FunctionBytecode>,
    quotas: RuntimeQuotas,
    m: MachineModel,
    fe: spec_fn(F64Op, u64, u64) -> u64,
    dst: u16,
    src: u16,
    a: bool,
)
    requires
        about_to_run(fs, m, Instr::Unary { op: Opcode::BoolNot, dst, src }),
        (src as int) < m.stack.last().regs.len(),
        (dst as int) < m.stack.last().regs.len(),
        m.stack.last().regs[src as int] == Value::Bool(a),
    ensures
        step_model(fs, quotas, m, fe) == Ok::<Option<MachineModel>, ErrorModel>(
            Some(advanced_with(m, dst, Value::Bool(!a), encode(Instr::Unary { op: Opcode::BoolNot, dst, src }).len() as int)),
        ),
{
    let n = encode(Instr::Unary { op: Opcode::BoolNot, dst, src }).len() as int;
    let top = m.stack.last();
    assert(m.stack.drop_last().push(at_pc(with_regs(top, top.regs.update(dst as int, Value::Bool(!a))), top.pc + n))
        == advanced_with(m, dst, Value::Bool(!a), n).stack);
}

/// Law: `ASSERT` on a `Bool` register traps with a failed assertion when it
/// holds `false`, and otherwise moves past the instruction with nothing
/// else changed.
pub proof fn lemma_step_assert(
    fs: Seq<FunctionBytecode>,
    quotas: RuntimeQuotas,
    m: MachineModel,
    fe: spec_fn(F64Op, u64, u64) -> u64,
    cond: u16,
    c: bool,
)
    requires
        about_to_run(fs, m, Instr::Assert { cond }),
        (cond as int) < m.stack.last().regs.len(),
        m.stack.last().regs[cond as int] == Value::Bool(c),
    ensures
        !c ==> step_model(fs, quotas, m, fe) == Err::<Option<MachineModel>, ErrorModel>(
            ErrorModel::Trap(RuntimeTrap::AssertionFailed),
        ),
        c ==> (step_model(fs, quotas, m, fe) matches Ok(Some(m2)) && m2.tuples == m.tuples && m2.effect_calls
            == m.effect_calls && m2.stack.len() == m.stack.len() && m2.stack.drop_last() == m.stack.drop_last()
            && m2.stack.last().regs == m.stack.last().regs && m2.stack.last().pc == m.stack.last().pc + encode(
            Instr::Assert { cond },
        ).len()),
{
}

/// Law: the machine's quad operations on two `Quad` registers write the
/// quad conjunction, disjunction and implication of `lhs` and `rhs`, in
/// that order.
pub proof fn lemma_step_quad_ops(
    fs: Seq<FunctionBytecode>,
    quotas: RuntimeQuotas,
    m: MachineModel,
    fe: spec_fn(F64Op, u64, u64) -> u64,
    op: Opcode,
    dst: u16,
    lhs: u16,
    rhs: u16,
    a: QuadVal,
    b: QuadVal,
)
    requires
        about_to_run(fs, m, Instr::Binary { op, dst, lhs, rhs }),
        (lhs as int) < m.stack.last().regs.len(),
        (rhs as int) < m.stack.last().regs.len(),
        (dst as int) < m.stack.last().regs.len(),
        m.stack.last().regs[lhs as int] == Value::Quad(a),
        m.stack.last().regs[rhs as int] == Value::Quad(b),
    ensures
        ({
            let n = encode(Instr::Binary { op, dst, lhs, rhs }).len() as int;
            let r = step_model(fs, quotas, m, fe);
            &&& op is QAnd ==> r == Ok::<Option<MachineModel>, ErrorModel>(
                Some(advanced_with(m, dst, Value::Quad(spec_quad_and(a, b)), n)),
            )
            &&& op is QOr ==> r == Ok::<Option<MachineModel>, ErrorModel>(
                Some(advanced_with(m, dst, Value::Quad(spec_quad_or(a, b)), n)),
            )
            &&& op is QImpl ==> r == Ok::<Option<MachineModel>, ErrorModel>(
                Some(advanced_with(m, dst, Value::Quad(spec_quad_impl(a, b)), n)),
            )
        }),
{
    let n = encode(Instr::Binary { op, dst, lhs, rhs }).len() as int;
    let top = m.stack.last();
    let v = if op is QAnd {
        spec_quad_and(a, b)
    } else if op is QOr {
        spec_quad_or(a, b)
    } else {
        spec_quad_impl(a, b)
    };
    assert(m.stack.drop_last().push(at_pc(with_regs(top, top.regs.update(dst as int, Value::Quad(v))), top.pc + n))
        == advanced_with(m, dst, Value::Quad(v), n).stack);
}

/// The machine `m` with its top frame moved to `pc`, everything else as it
/// was.
pub open spec fn moved_to(m: MachineModel, pc: int) -> MachineModel {
    let top = m.stack.last();
    MachineModel {
        stack: m.stack.drop_last().push(
            FrameModel { pc, regs: top.regs, locals: top.locals, func: top.func, return_dst: top.return_dst },
        ),
        effect_calls: m.effect_calls,
        tuples: m.tuples,
    }
}

/// Law: jumps. `JMP` to an offset inside the stream moves there; `JMP_IF`
/// on a `Bool` register moves to its target when the register holds `true`
/// and past itself when it holds `false`.
pub proof fn lemma_step_jumps(
    fs: Seq<FunctionBytecode>,
    quotas: RuntimeQuotas,
    m: MachineModel,
    fe: spec_fn(F64Op, u64, u64) -> u64,
    i: Instr,
    c: bool,
)
    requires
        about_to_run(fs, m, i),
        i is Jmp || i is JmpIf,
        i matches Instr::JmpIf { cond, .. } ==> (cond as int) < m.stack.last().regs.len()
            && m.stack.last().regs[cond as int] == Value::Bool(c),
    ensures
        ({
            let f = fs[m.stack.last().func];
            let rel = f.code@.len() - f.instr_start;
            let r = step_model(fs, quotas, m, fe);
            &&& (i is Jmp && jump_target_of(i)->Some_0 < rel ==> r == Ok::<Option<MachineModel>, ErrorModel>(
                Some(moved_to(m, jump_target_of(i)->Some_0 as int)),
            ))
            &&& (i is JmpIf && c && jump_target_of(i)->Some_0 < rel ==> r == Ok::<Option<MachineModel>, ErrorModel>(
                Some(moved_to(m, jump_target_of(i)->Some_0 as int)),
            ))
            &&& (i is JmpIf && !c ==> r == Ok::<Option<MachineModel>, ErrorModel>(
                Some(moved_to(m, m.stack.last().pc + encode(i).len())),
            ))
        }),
{
}

/// Law: loads write their constant to the destination register and move
/// past themselves: `LOAD_I32` writes `I32(val)`, `LOAD_BOOL` writes whether
/// its byte is non-zero, `LOAD_F64` writes `F64(bits)`.
pub proof fn lemma_step_loads(
    fs: Seq<FunctionBytecode>,
    quotas: RuntimeQuotas,
    m: MachineModel,
    fe: spec_fn(F64Op, u64, u64) -> u64,
    i: Instr,
)
    requires
        about_to_run(fs, m, i),
        i is LoadI32 || i is LoadBool || i is LoadF64,
        i matches Instr::LoadI32 { dst, .. } ==> (dst as int) < m.stack.last().regs.len(),
        i matches Instr::LoadBool { dst, .. } ==> (dst as int) < m.stack.last().regs.len(),
        i matches Instr::LoadF64 { dst, .. } ==> (dst as int) < m.stack.last().regs.len(),
    ensures
        ({
            let n = encode(i).len() as int;
            let r = step_model(fs, quotas, m, fe);
            &&& (i matches Instr::LoadI32 { dst, val } ==> r == Ok::<Option<MachineModel>, ErrorModel>(
                Some(advanced_with(m, dst, Value::I32(val), n)),
            ))
            &&& (i matches Instr::LoadBool { dst, val } ==> r == Ok::<Option<MachineModel>, ErrorModel>(
                Some(advanced_with(m, dst, Value::Bool(val != 0), n)),
            ))
            &&& (i matches Instr::LoadF64 { dst, bits } ==> r == Ok::<Option<MachineModel>, ErrorModel>(
                Some(advanced_with(m, dst, Value::F64(bits), n)),
            ))
        }),
{
    let n = encode(i).len() as int;
    let top = m.stack.last();
    match i {
        Instr::LoadI32 { dst, val } => {
            assert(m.stack.drop_last().push(at_pc(with_regs(top, top.regs.update(dst as int, Value::I32(val))), top.pc + n))
                == advanced_with(m, dst, Value::I32(val), n).stack);
        },
        Instr::LoadBool { dst, val } => {
            assert(m.stack.drop_last().push(at_pc(with_regs(top, top.regs.update(dst as int, Value::Bool(val != 0))), top.pc + n))
                == advanced_with(m, dst, Value::Bool(val != 0), n).stack);
        },
        Instr::LoadF64 { dst, bits } => {
            assert(m.stack.drop_last().push(at_pc(with_regs(top, top.regs.update(dst as int, Value::F64(bits))), top.pc + n))
                == advanced_with(m, dst, Value::F64(bits), n).stack);
        },
        _ => {},
    }
}

} // verus!
