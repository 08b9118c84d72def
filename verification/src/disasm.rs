//! The disassembler: a text listing of a SemCode image. The header comes
//! first, then each function in the byte order of its name, one line per
//! instruction with its offset in hexadecimal.
//!
//! The text of an `f64` constant is made by a formatter that the caller
//! hands in, since the library holds no floating-point values.
use crate::bytecode::{decode_instr, decodes_to, encode, same_instr, Instr};
use crate::semcode_format::{header_view, spec_supported_headers, Opcode, SemcodeHeaderSpec};
use crate::text::{decimal, hex_text, push_decimal, push_hex_padded, zero_padded};
use crate::vm::{
    decode_at, error_model, format_error_message, image_of, lemma_decode_at_agrees, map_format_err,
    names_of_images, parse_error_matches, parse_semcode, push_signed, shown_magic, signed_decimal,
    spec_parse, ErrorModel, FunctionBytecode, FunctionImage, RuntimeError,
};
use vstd::prelude::*;
use vstd::utf8::encode_utf8;

verus! {

/// `f` may be called on any bit pattern and gives one text for each.
pub open spec fn is_f64_formatter<F: Fn(u64) -> String>(f: F) -> bool {
    &&& forall|b: u64| f.requires((b,))
    &&& forall|b: u64, s1: String, s2: String| f.ensures((b,), s1) && f.ensures((b,), s2) ==> s1@ == s2@
}

/// The text `f` gives for each bit pattern.
pub open spec fn f64_texts<F: Fn(u64) -> String>(f: F) -> spec_fn(u64) -> Seq<char> {
    |b: u64| (choose|s: String| f.ensures((b,), s))@
}

/// A register as it is written: `r` and its number.
pub open spec fn reg(r: u16) -> Seq<char> {
    "r"@ + decimal(r as nat)
}

/// Registers separated by `, `.
pub open spec fn reg_list(rs: Seq<u16>) -> Seq<char>
    decreases rs.len(),
{
    if rs.len() == 0 {
        Seq::empty()
    } else if rs.len() == 1 {
        reg(rs[0])
    } else {
        reg_list(rs.drop_last()) + ", "@ + reg(rs.last())
    }
}

/// The mnemonic of a two-operand opcode.
pub open spec fn binary_name(op: Opcode) -> Seq<char> {
    match op {
        Opcode::AddI32 => "ADD_I32"@,
        Opcode::QAnd => "Q_AND"@,
        Opcode::QOr => "Q_OR"@,
        Opcode::QImpl => "Q_IMPL"@,
        Opcode::BoolAnd => "BOOL_AND"@,
        Opcode::BoolOr => "BOOL_OR"@,
        Opcode::CmpI32Lt => "CMP_I32_LT"@,
        Opcode::CmpI32Le => "CMP_I32_LE"@,
        Opcode::AddF64 => "ADD_F64"@,
        Opcode::SubF64 => "SUB_F64"@,
        Opcode::MulF64 => "MUL_F64"@,
        Opcode::DivF64 => "DIV_F64"@,
        Opcode::CmpEq => "CMP_EQ"@,
        _ => "CMP_NE"@,
    }
}

/// The text of one instruction; `ft` gives the text of an `f64` constant.
pub open spec fn instr_line(i: Instr, ft: spec_fn(u64) -> Seq<char>) -> Seq<char> {
    match i {
        Instr::LoadQ { dst, val } => "LOAD_Q "@ + reg(dst) + ", "@ + decimal(val as nat),
        Instr::LoadBool { dst, val } => "LOAD_BOOL "@ + reg(dst) + ", "@ + decimal(val as nat),
        Instr::LoadI32 { dst, val } => "LOAD_I32 "@ + reg(dst) + ", "@ + signed_decimal(val as int),
        Instr::LoadU32 { dst, val } => "LOAD_U32 "@ + reg(dst) + ", "@ + decimal(val as nat),
        Instr::LoadF64 { dst, bits } => "LOAD_F64 "@ + reg(dst) + ", "@ + ft(bits),
        Instr::LoadFx { dst, val } => "LOAD_FX "@ + reg(dst) + ", raw:"@ + signed_decimal(val as int),
        Instr::LoadVar { dst, sid } => "LOAD_VAR "@ + reg(dst) + ", s"@ + decimal(sid as nat),
        Instr::StoreVar { sid, src } => "STORE_VAR s"@ + decimal(sid as nat) + ", "@ + reg(src),
        Instr::Unary { op, dst, src } => (if op is QNot {
            "Q_NOT"@
        } else {
            "BOOL_NOT"@
        }) + " "@ + reg(dst) + ", "@ + reg(src),
        Instr::Binary { op, dst, lhs, rhs } => binary_name(op) + " "@ + reg(dst) + ", "@ + reg(lhs)
            + ", "@ + reg(rhs),
        Instr::TupleGet { dst, src, index } => "TUPLE_GET "@ + reg(dst) + ", "@ + reg(src) + ", "@
            + decimal(index as nat),
        Instr::MakeTuple { dst, items } => "MAKE_TUPLE "@ + reg(dst) + ", ["@ + reg_list(items@)
            + "]"@,
        Instr::Jmp { addr } => "JMP "@ + decimal(addr as nat),
        Instr::JmpIf { cond, addr } => "JMP_IF "@ + reg(cond) + ", "@ + decimal(addr as nat),
        Instr::Call { flag, dst, sid, args } => "CALL dst?"@ + decimal(flag as nat) + " "@ + reg(dst)
            + " fn#"@ + decimal(sid as nat) + " argc="@ + decimal(args@.len()),
        Instr::Ret { flag, src } => if flag != 0 {
            "RET "@ + reg(src)
        } else {
            "RET"@
        },
        Instr::Assert { cond } => "ASSERT "@ + reg(cond),
        Instr::GateRead { dst, device_id, port } => "GATE_READ "@ + reg(dst) + ", dev="@ + decimal(
            device_id as nat,
        ) + ", port="@ + decimal(port as nat),
        Instr::GateWrite { device_id, port, src } => "GATE_WRITE dev="@ + decimal(device_id as nat)
            + ", port="@ + decimal(port as nat) + ", "@ + reg(src),
        Instr::PulseEmit { sid } => "PULSE_EMIT s"@ + decimal(sid as nat),
    }
}

fn push_reg(s: &mut String, r: u16)
    ensures
        final(s)@ == old(s)@ + reg(r),
{
    s.append("r");
    push_decimal(s, r as u64);
    assert(s@ =~= old(s)@ + reg(r));
}

fn push_reg_list(s: &mut String, rs: &Vec<u16>)
    ensures
        final(s)@ == old(s)@ + reg_list(rs@),
{
    let ghost start = s@;
    let mut k: usize = 0;
    assert(rs@.take(0) =~= Seq::<u16>::empty());
    while k < rs.len()
        invariant
            k <= rs@.len(),
            s@ == start + reg_list(rs@.take(k as int)),
        decreases rs@.len() - k,
    {
        let ghost before = s@;
        if k > 0 {
            s.append(", ");
        }
        push_reg(s, rs[k]);
        proof {
            let t = rs@.take(k as int + 1);
            assert(t.drop_last() =~= rs@.take(k as int));
            if k == 0 {
                assert(s@ =~= start + reg_list(t));
            } else {
                assert(s@ =~= start + reg_list(t));
            }
        }
        k = k + 1;
    }
    assert(rs@.take(rs@.len() as int) =~= rs@);
}

fn push_f64_text<F: Fn(u64) -> String>(s: &mut String, bits: u64, f64_text: &F)
    requires
        is_f64_formatter(*f64_text),
    ensures
        final(s)@ == old(s)@ + f64_texts(*f64_text)(bits),
{
    let t = f64_text(bits);
    proof {
        let c = choose|c: String| f64_text.ensures((bits,), c);
        assert(f64_text.ensures((bits,), c));
    }
    s.append(t.as_str());
}

fn binary_name_text(s: &mut String, op: Opcode)
    ensures
        final(s)@ == old(s)@ + binary_name(op),
{
    match op {
        Opcode::AddI32 => s.append("ADD_I32"),
        Opcode::QAnd => s.append("Q_AND"),
        Opcode::QOr => s.append("Q_OR"),
        Opcode::QImpl => s.append("Q_IMPL"),
        Opcode::BoolAnd => s.append("BOOL_AND"),
        Opcode::BoolOr => s.append("BOOL_OR"),
        Opcode::CmpI32Lt => s.append("CMP_I32_LT"),
        Opcode::CmpI32Le => s.append("CMP_I32_LE"),
        Opcode::AddF64 => s.append("ADD_F64"),
        Opcode::SubF64 => s.append("SUB_F64"),
        Opcode::MulF64 => s.append("MUL_F64"),
        Opcode::DivF64 => s.append("DIV_F64"),
        Opcode::CmpEq => s.append("CMP_EQ"),
        _ => s.append("CMP_NE"),
    }
}

/// The text of one decoded instruction.
pub fn instr_text<F: Fn(u64) -> String>(i: &Instr, f64_text: &F) -> (s: String)
    requires
        is_f64_formatter(*f64_text),
    ensures
        s@ == instr_line(*i, f64_texts(*f64_text)),
{
    let mut s = String::new();
    match i {
        Instr::LoadQ { dst, val } => {
            s.append("LOAD_Q ");
            push_reg(&mut s, *dst);
            s.append(", ");
            push_decimal(&mut s, *val as u64);
        },
        Instr::LoadBool { dst, val } => {
            s.append("LOAD_BOOL ");
            push_reg(&mut s, *dst);
            s.append(", ");
            push_decimal(&mut s, *val as u64);
        },
        Instr::LoadI32 { dst, val } => {
            s.append("LOAD_I32 ");
            push_reg(&mut s, *dst);
            s.append(", ");
            push_signed(&mut s, *val);
        },
        Instr::LoadU32 { dst, val } => {
            s.append("LOAD_U32 ");
            push_reg(&mut s, *dst);
            s.append(", ");
            push_decimal(&mut s, *val as u64);
        },
        Instr::LoadF64 { dst, bits } => {
            s.append("LOAD_F64 ");
            push_reg(&mut s, *dst);
            s.append(", ");
            push_f64_text(&mut s, *bits, f64_text);
        },
        Instr::LoadFx { dst, val } => {
            s.append("LOAD_FX ");
            push_reg(&mut s, *dst);
            s.append(", raw:");
            push_signed(&mut s, *val);
        },
        Instr::LoadVar { dst, sid } => {
            s.append("LOAD_VAR ");
            push_reg(&mut s, *dst);
            s.append(", s");
            push_decimal(&mut s, *sid as u64);
        },
        Instr::StoreVar { sid, src } => {
            s.append("STORE_VAR s");
            push_decimal(&mut s, *sid as u64);
            s.append(", ");
            push_reg(&mut s, *src);
        },
        Instr::Unary { op, dst, src } => {
            match op {
                Opcode::QNot => s.append("Q_NOT"),
                _ => s.append("BOOL_NOT"),
            }
            s.append(" ");
            push_reg(&mut s, *dst);
            s.append(", ");
            push_reg(&mut s, *src);
        },
        Instr::Binary { op, dst, lhs, rhs } => {
            binary_name_text(&mut s, *op);
            s.append(" ");
            push_reg(&mut s, *dst);
            s.append(", ");
            push_reg(&mut s, *lhs);
            s.append(", ");
            push_reg(&mut s, *rhs);
        },
        Instr::TupleGet { dst, src, index } => {
            s.append("TUPLE_GET ");
            push_reg(&mut s, *dst);
            s.append(", ");
            push_reg(&mut s, *src);
            s.append(", ");
            push_decimal(&mut s, *index as u64);
        },
        Instr::MakeTuple { dst, items } => {
            s.append("MAKE_TUPLE ");
            push_reg(&mut s, *dst);
            s.append(", [");
            push_reg_list(&mut s, items);
            s.append("]");
        },
        Instr::Jmp { addr } => {
            s.append("JMP ");
            push_decimal(&mut s, *addr as u64);
        },
        Instr::JmpIf { cond, addr } => {
            s.append("JMP_IF ");
            push_reg(&mut s, *cond);
            s.append(", ");
            push_decimal(&mut s, *addr as u64);
        },
        Instr::Call { flag, dst, sid, args } => {
            s.append("CALL dst?");
            push_decimal(&mut s, *flag as u64);
            s.append(" ");
            push_reg(&mut s, *dst);
            s.append(" fn#");
            push_decimal(&mut s, *sid as u64);
            s.append(" argc=");
            push_decimal(&mut s, args.len() as u64);
        },
        Instr::Ret { flag, src } => {
            if *flag != 0 {
                s.append("RET ");
                push_reg(&mut s, *src);
            } else {
                s.append("RET");
            }
        },
        Instr::Assert { cond } => {
            s.append("ASSERT ");
            push_reg(&mut s, *cond);
        },
        Instr::GateRead { dst, device_id, port } => {
            s.append("GATE_READ ");
            push_reg(&mut s, *dst);
            s.append(", dev=");
            push_decimal(&mut s, *device_id as u64);
            s.append(", port=");
            push_decimal(&mut s, *port as u64);
        },
        Instr::GateWrite { device_id, port, src } => {
            s.append("GATE_WRITE dev=");
            push_decimal(&mut s, *device_id as u64);
            s.append(", port=");
            push_decimal(&mut s, *port as u64);
            s.append(", ");
            push_reg(&mut s, *src);
        },
        Instr::PulseEmit { sid } => {
            s.append("PULSE_EMIT s");
            push_decimal(&mut s, *sid as u64);
        },
    }
    assert(s@ =~= instr_line(*i, f64_texts(*f64_text)));
    s
}

/// The lines of the instructions from offset `pc` on, each with its offset
/// in at least four hexadecimal digits; the first undecodable instruction
/// is the error.
#[verifier::opaque]
pub open spec fn code_lines(code: Seq<u8>, base: int, pc: int, rel: int, ft: spec_fn(u64) -> Seq<char>) -> Result<
    Seq<char>,
    ErrorModel,
>
    decreases (if pc < rel {
        rel - pc
    } else {
        0
    }),
{
    if pc >= rel || pc < 0 {
        Ok(Seq::empty())
    } else {
        match decode_at(code, base + pc) {
            Err(e) => Err(ErrorModel::BadFormat(format_error_message(e))),
            Ok(i) => if encode(i).len() == 0 {
                Ok(Seq::empty())
            } else {
                match code_lines(code, base, pc + encode(i).len(), rel, ft) {
                    Err(e) => Err(e),
                    Ok(rest) => Ok(
                        "  "@ + zero_padded(hex_text(pc as nat), 4) + ": "@ + instr_line(i, ft) + "\n"@
                            + rest,
                    ),
                }
            },
        }
    }
}

/// The instruction stream's length: the code after `instr_start`.
pub open spec fn stream_len(f: FunctionImage) -> int {
    if f.code.len() >= f.instr_start {
        f.code.len() - f.instr_start
    } else {
        0
    }
}

/// The listing of one function: a line with its name and sizes, then its
/// instructions.
pub open spec fn function_listing(f: FunctionImage, ft: spec_fn(u64) -> Seq<char>) -> Result<
    Seq<char>,
    ErrorModel,
> {
    match code_lines(f.code, f.instr_start, 0, stream_len(f), ft) {
        Err(e) => Err(e),
        Ok(lines) => Ok(
            "fn "@ + f.name + ": code="@ + decimal(f.code.len()) + " bytes, strings="@ + decimal(
                f.strings.len(),
            ) + ", debug="@ + decimal(f.debug.len()) + "\n"@ + lines,
        ),
    }
}

/// The listings of the functions `order` picks, in that order; the first
/// error is the result.
pub open spec fn listing(fs: Seq<FunctionImage>, order: Seq<int>, ft: spec_fn(u64) -> Seq<char>) -> Result<
    Seq<char>,
    ErrorModel,
>
    decreases order.len(),
{
    if order.len() == 0 {
        Ok(Seq::empty())
    } else {
        match listing(fs, order.drop_last(), ft) {
            Err(e) => Err(e),
            Ok(a) => match function_listing(fs[order.last()], ft) {
                Err(e) => Err(e),
                Ok(b) => Ok(a + b),
            },
        }
    }
}

/// The first line: the magic, the epoch and revision, and the capability
/// bits in eight hexadecimal digits.
pub open spec fn header_line(h: (Seq<u8>, u16, u16, u32)) -> Seq<char> {
    shown_magic(h.0) + " epoch="@ + decimal(h.1 as nat) + "."@ + decimal(h.2 as nat) + " caps=0x"@
        + zero_padded(hex_text(h.3 as nat), 8) + "\n"@
}

/// `a` comes before `b` in byte order: at the first difference its byte is
/// smaller, or it is a proper prefix of `b`.
pub open spec fn bytes_before(a: Seq<u8>, b: Seq<u8>, i: int) -> bool
    decreases a.len() - i,
{
    if i >= a.len() {
        i < b.len()
    } else if i >= b.len() {
        false
    } else if a[i] != b[i] {
        a[i] < b[i]
    } else {
        bytes_before(a, b, i + 1)
    }
}

/// Function `a` is listed before function `b`: its name comes first in the
/// byte order of UTF-8, and equal names keep their image order.
pub open spec fn name_before(names: Seq<Seq<char>>, a: int, b: int) -> bool {
    let x = encode_utf8(names[a]);
    let y = encode_utf8(names[b]);
    bytes_before(x, y, 0) || (x == y && a < b)
}

/// `order` lists each of the functions named `names` once, in name order.
pub open spec fn in_name_order(names: Seq<Seq<char>>, order: Seq<int>) -> bool {
    &&& order.len() == names.len()
    &&& forall|k: int| 0 <= k < order.len() ==> 0 <= #[trigger] order[k] < names.len()
    &&& forall|i: int, j: int| 0 <= i < j < order.len() ==> name_before(names, #[trigger] order[i], #[trigger] order[j])
}

proof fn lemma_bytes_before_trans(a: Seq<u8>, b: Seq<u8>, c: Seq<u8>, i: int)
    requires
        0 <= i,
        bytes_before(a, b, i),
        bytes_before(b, c, i),
    ensures
        bytes_before(a, c, i),
    decreases a.len() - i,
{
    if i < a.len() && i < b.len() && i < c.len() && a[i] == b[i] && b[i] == c[i] {
        lemma_bytes_before_trans(a, b, c, i + 1);
    }
}

proof fn lemma_bytes_before_total(a: Seq<u8>, b: Seq<u8>, i: int)
    requires
        0 <= i <= a.len(),
        i <= b.len(),
        a.subrange(0, i) == b.subrange(0, i),
    ensures
        bytes_before(a, b, i) || bytes_before(b, a, i) || a == b,
    decreases a.len() - i,
{
    if i < a.len() && i < b.len() && a[i] == b[i] {
        assert(a.subrange(0, i + 1) =~= a.subrange(0, i).push(a[i]));
        assert(b.subrange(0, i + 1) =~= b.subrange(0, i).push(b[i]));
        lemma_bytes_before_total(a, b, i + 1);
    } else if i == a.len() && i == b.len() {
        assert(a =~= a.subrange(0, i));
        assert(b =~= b.subrange(0, i));
    }
}

proof fn lemma_bytes_before_irreflexive(a: Seq<u8>, i: int)
    requires
        0 <= i,
    ensures
        !bytes_before(a, a, i),
    decreases a.len() - i,
{
    if i < a.len() {
        lemma_bytes_before_irreflexive(a, i + 1);
    }
}

proof fn lemma_bytes_before_asym(a: Seq<u8>, b: Seq<u8>, i: int)
    requires
        0 <= i,
        bytes_before(a, b, i),
    ensures
        !bytes_before(b, a, i),
    decreases a.len() - i,
{
    if i < a.len() && i < b.len() && a[i] == b[i] {
        lemma_bytes_before_asym(a, b, i + 1);
    }
}

fn bytes_less(a: &[u8], b: &[u8]) -> (r: bool)
    ensures
        r == bytes_before(a@, b@, 0),
{
    let mut i: usize = 0;
    while i < a.len() && i < b.len()
        invariant
            i <= a@.len(),
            i <= b@.len(),
            bytes_before(a@, b@, 0) == bytes_before(a@, b@, i as int),
        decreases a@.len() - i,
    {
        if a[i] != b[i] {
            return a[i] < b[i];
        }
        i = i + 1;
    }
    i >= a.len() && i < b.len()
}

fn bytes_equal(a: &[u8], b: &[u8]) -> (r: bool)
    ensures
        r == (a@ == b@),
{
    if a.len() != b.len() {
        return false;
    }
    let mut i: usize = 0;
    while i < a.len()
        invariant
            a@.len() == b@.len(),
            i <= a@.len(),
            forall|k: int| 0 <= k < i ==> a@[k] == b@[k],
        decreases a@.len() - i,
    {
        if a[i] != b[i] {
            return false;
        }
        i = i + 1;
    }
    assert(a@ =~= b@);
    true
}

fn listed_before(funcs: &Vec<FunctionBytecode>, a: usize, b: usize) -> (r: bool)
    requires
        a < funcs@.len(),
        b < funcs@.len(),
    ensures
        r == name_before(Seq::new(funcs@.len(), |k: int| funcs@[k].name@), a as int, b as int),
{
    let x = funcs[a].name.as_str().as_bytes();
    let y = funcs[b].name.as_str().as_bytes();
    if bytes_less(x, y) {
        true
    } else {
        bytes_equal(x, y) && a < b
    }
}

/// The indices of the functions, sorted by name.
fn name_order(funcs: &Vec<FunctionBytecode>) -> (order: Vec<usize>)
    ensures
        in_name_order(
            Seq::new(funcs@.len(), |k: int| funcs@[k].name@),
            Seq::new(order@.len(), |k: int| order@[k] as int),
        ),
{
    let ghost names = Seq::new(funcs@.len(), |k: int| funcs@[k].name@);
    let mut order: Vec<usize> = Vec::new();
    let mut n: usize = 0;
    while n < funcs.len()
        invariant
            n <= funcs@.len(),
            names == Seq::new(funcs@.len(), |k: int| funcs@[k].name@),
            order@.len() == n,
            forall|k: int| 0 <= k < n ==> #[trigger] order@[k] < n,
            forall|i: int, j: int|
                0 <= i < j < n ==> name_before(names, #[trigger] order@[i] as int, #[trigger] order@[j] as int),
        decreases funcs@.len() - n,
    {
        let mut p: usize = 0;
        while p < order.len() && listed_before(funcs, order[p], n)
            invariant
                p <= order@.len(),
                order@.len() == n,
                n < funcs@.len(),
                names == Seq::new(funcs@.len(), |k: int| funcs@[k].name@),
                forall|k: int| 0 <= k < n ==> #[trigger] order@[k] < n,
                forall|k: int| 0 <= k < p ==> name_before(names, #[trigger] order@[k] as int, n as int),
            decreases order@.len() - p,
        {
            p = p + 1;
        }
        proof {
            if p < n {
                let q = order@[p as int] as int;
                let x = encode_utf8(names[q]);
                let y = encode_utf8(names[n as int]);
                assert(x.subrange(0, 0) =~= y.subrange(0, 0));
                lemma_bytes_before_total(x, y, 0);
                assert(name_before(names, n as int, q));
                assert forall|k: int| p <= k < n implies name_before(names, n as int, #[trigger] order@[k] as int) by {
                    if k > p {
                        let z = encode_utf8(names[order@[k] as int]);
                        assert(name_before(names, q, order@[k] as int));
                        if bytes_before(y, x, 0) && bytes_before(x, z, 0) {
                            lemma_bytes_before_trans(y, x, z, 0);
                        }
                    }
                }
            }
        }
        let ghost before = order@;
        order.insert(p, n);
        proof {
            assert forall|i: int, j: int| 0 <= i < j < n + 1 implies name_before(
                names,
                #[trigger] order@[i] as int,
                #[trigger] order@[j] as int,
            ) by {
                if j < p {
                    assert(order@[i] == before[i] && order@[j] == before[j]);
                } else if j == p {
                    assert(order@[i] == before[i]);
                } else if i < p {
                    assert(order@[i] == before[i] && order@[j] == before[j - 1]);
                    let x = encode_utf8(names[order@[i] as int]);
                    let y = encode_utf8(names[n as int]);
                    let z = encode_utf8(names[order@[j] as int]);
                    assert(name_before(names, order@[i] as int, n as int));
                    assert(name_before(names, n as int, order@[j] as int));
                    if bytes_before(x, y, 0) && bytes_before(y, z, 0) {
                        lemma_bytes_before_trans(x, y, z, 0);
                    }
                } else if i == p {
                    assert(order@[j] == before[j - 1]);
                } else {
                    assert(order@[i] == before[i - 1] && order@[j] == before[j - 1]);
                }
            }
        }
        n = n + 1;
    }
    let ghost out = Seq::new(order@.len(), |k: int| order@[k] as int);
    assert forall|i: int, j: int| 0 <= i < j < out.len() implies name_before(names, #[trigger] out[i], #[trigger] out[j]) by {
        assert(name_before(names, order@[i] as int, order@[j] as int));
    }
    order
}


proof fn lemma_line_same(a: Instr, b: Instr, ft: spec_fn(u64) -> Seq<char>)
    requires
        same_instr(a, b),
    ensures
        instr_line(a, ft) == instr_line(b, ft),
{
    match (a, b) {
        (Instr::MakeTuple { .. }, Instr::MakeTuple { .. }) => {},
        (Instr::Call { .. }, Instr::Call { .. }) => {},
        _ => {},
    }
}

/// `a` in front of a successful text; an error stays as it is.
pub open spec fn prepend(a: Seq<char>, r: Result<Seq<char>, ErrorModel>) -> Result<Seq<char>, ErrorModel> {
    match r {
        Ok(x) => Ok(a + x),
        Err(e) => Err(e),
    }
}

/// One line of the listing, for instruction `i` at offset `pc`.
pub open spec fn code_line(pc: int, i: Instr, ft: spec_fn(u64) -> Seq<char>) -> Seq<char> {
    "  "@ + zero_padded(hex_text(pc as nat), 4) + ": "@ + instr_line(i, ft) + "\n"@
}

proof fn lemma_code_lines_step(cs: Seq<u8>, base: int, pc: int, rel: int, ft: spec_fn(u64) -> Seq<char>, i: Instr)
    requires
        0 <= pc < rel,
        decodes_to(cs, base + pc, i),
    ensures
        code_lines(cs, base, pc, rel, ft) == prepend(
            code_line(pc, i, ft),
            code_lines(cs, base, pc + encode(i).len(), rel, ft),
        ),
        encode(i).len() > 0,
{
    reveal(code_lines);
    lemma_decode_at_agrees(cs, base + pc, i);
    let j = decode_at(cs, base + pc)->Ok_0;
    lemma_line_same(i, j, ft);
    assert(encode(i).len() > 0);
}

proof fn lemma_code_lines_err(cs: Seq<u8>, base: int, pc: int, rel: int, ft: spec_fn(u64) -> Seq<char>)
    requires
        0 <= pc < rel,
        decode_at(cs, base + pc) is Err,
    ensures
        code_lines(cs, base, pc, rel, ft) == Err::<Seq<char>, ErrorModel>(
            ErrorModel::BadFormat(format_error_message(decode_at(cs, base + pc)->Err_0)),
        ),
{
    reveal(code_lines);
}

proof fn lemma_code_lines_end(cs: Seq<u8>, base: int, pc: int, rel: int, ft: spec_fn(u64) -> Seq<char>)
    requires
        pc >= rel,
    ensures
        code_lines(cs, base, pc, rel, ft) == Ok::<Seq<char>, ErrorModel>(Seq::empty()),
{
    reveal(code_lines);
}

proof fn lemma_prepend_twice(a: Seq<char>, b: Seq<char>, r: Result<Seq<char>, ErrorModel>)
    ensures
        prepend(a, prepend(b, r)) == prepend(a + b, r),
{
    if r is Ok {
        assert(a + (b + r->Ok_0) =~= (a + b) + r->Ok_0);
    }
}

/// The listing of one parsed function.
pub fn function_text<F: Fn(u64) -> String>(f: &FunctionBytecode, f64_text: &F) -> (r: Result<String, RuntimeError>)
    requires
        is_f64_formatter(*f64_text),
    ensures
        match function_listing(image_of(*f), f64_texts(*f64_text)) {
            Ok(t) => r matches Ok(s) && s@ == t,
            Err(e) => r matches Err(err) && error_model(err) == e,
        },
{
    let ghost ft = f64_texts(*f64_text);
    let mut out = String::from_str("fn ");
    out.append(f.name.as_str());
    out.append(": code=");
    push_decimal(&mut out, f.code.len() as u64);
    out.append(" bytes, strings=");
    push_decimal(&mut out, f.strings.len() as u64);
    out.append(", debug=");
    push_decimal(&mut out, f.debug_symbols.len() as u64);
    out.append("\n");
    let ghost head = out@;
    let code = f.code.as_slice();
    let base = f.instr_start;
    let clen = code.len();
    assert(code@.len() == clen);
    let rel = if code.len() >= base {
        code.len() - base
    } else {
        0
    };
    let ghost cs = code@;
    let ghost mut acc: Seq<char> = Seq::empty();
    let mut pc: usize = 0;
    assert(prepend(acc, code_lines(cs, base as int, 0, rel as int, ft)) =~= code_lines(cs, base as int, 0, rel as int, ft)) by {
        if code_lines(cs, base as int, 0, rel as int, ft) is Ok {
            assert(acc + code_lines(cs, base as int, 0, rel as int, ft)->Ok_0 =~= code_lines(cs, base as int, 0, rel as int, ft)->Ok_0);
        }
    }
    while pc < rel
        invariant
            is_f64_formatter(*f64_text),
            ft == f64_texts(*f64_text),
            cs == code@,
            cs == f.code@,
            base == f.instr_start,
            code@.len() <= usize::MAX,
            rel == (if code@.len() >= base {
                code@.len() - base
            } else {
                0
            }),
            out@ == head + acc,
            code_lines(cs, base as int, 0, rel as int, ft) == prepend(acc, code_lines(cs, base as int, pc as int, rel as int, ft)),
        decreases rel - pc,
    {
        match decode_instr(code, base + pc) {
            Err(e) => {
                assert(decode_at(cs, base + pc) == Err::<Instr, crate::semcode_format::SemcodeFormatError>(e));
                proof {
                    lemma_code_lines_err(cs, base as int, pc as int, rel as int, ft);
                    assert(code_lines(cs, base as int, 0, rel as int, ft) == Err::<Seq<char>, ErrorModel>(
                        ErrorModel::BadFormat(format_error_message(e)),
                    ));
                    assert(stream_len(image_of(*f)) == rel as int);
                }
                let err = map_format_err(e);
                assert(error_model(err) == ErrorModel::BadFormat(format_error_message(e)));
                return Err(err);
            },
            Ok((i, n)) => {
                proof {
                    lemma_code_lines_step(cs, base as int, pc as int, rel as int, ft, i);
                    lemma_prepend_twice(acc, code_line(pc as int, i, ft), code_lines(cs, base as int, (n - base) as int, rel as int, ft));
                }
                out.append("  ");
                push_hex_padded(&mut out, pc as u64, 4);
                out.append(": ");
                let t = instr_text(&i, f64_text);
                out.append(t.as_str());
                out.append("\n");
                proof {
                    assert(out@ =~= head + (acc + code_line(pc as int, i, ft)));
                    acc = acc + code_line(pc as int, i, ft);
                }
                pc = n - base;
            },
        }
    }
    proof {
        lemma_code_lines_end(cs, base as int, pc as int, rel as int, ft);
    }
    assert(acc + Seq::<char>::empty() =~= acc);
    assert(out@ =~= "fn "@ + f.name@ + ": code="@ + decimal(f.code@.len()) + " bytes, strings="@ + decimal(
        f.strings@.len(),
    ) + ", debug="@ + decimal(f.debug_symbols@.len()) + "\n"@ + acc);
    Ok(out)
}

fn header_text(h: &SemcodeHeaderSpec) -> (s: String)
    ensures
        s@ == header_line(header_view(*h)),
{
    let mut s = match crate::semcode_format::utf8_text(&h.magic) {
        Some(t) => {
            proof {
                vstd::utf8::encode_utf8_decode_utf8(t@);
            }
            t
        },
        None => String::from_str("SEMCODE\u{FFFD}"),
    };
    s.append(" epoch=");
    push_decimal(&mut s, h.epoch as u64);
    s.append(".");
    push_decimal(&mut s, h.rev as u64);
    s.append(" caps=0x");
    push_hex_padded(&mut s, h.capabilities as u64, 8);
    s.append("\n");
    assert(s@ =~= header_line(header_view(*h)));
    s
}

proof fn lemma_listing_prefix_err(fs: Seq<FunctionImage>, o: Seq<int>, m: int, ft: spec_fn(u64) -> Seq<char>)
    requires
        0 <= m <= o.len(),
        listing(fs, o.take(m), ft) is Err,
    ensures
        listing(fs, o, ft) == listing(fs, o.take(m), ft),
    decreases o.len(),
{
    if o.len() == m {
        assert(o.take(m) =~= o);
    } else {
        assert(o.drop_last().take(m) =~= o.take(m));
        lemma_listing_prefix_err(fs, o.drop_last(), m, ft);
    }
}

/// Disassembles an image: the header line, then every function in the byte
/// order of its name with one line per instruction. `f64_text` writes an
/// `f64` constant given its bit pattern.
pub fn disasm_semcode<F: Fn(u64) -> String>(bytes: &[u8], f64_text: &F) -> (r: Result<String, RuntimeError>)
    requires
        is_f64_formatter(*f64_text),
    ensures
        match spec_parse(bytes@) {
            Err((fail, name)) => r matches Err(e) && parse_error_matches(e, fail, name, bytes@),
            Ok((h, fs)) => exists|order: Seq<int>|
                in_name_order(names_of_images(fs), order) && match #[trigger] listing(
                    fs,
                    order,
                    f64_texts(*f64_text),
                ) {
                    Ok(t) => r matches Ok(s) && s@ == header_line(spec_supported_headers()[h]) + t,
                    Err(e) => r matches Err(err) && error_model(err) == e,
                },
        },
{
    let ghost ft = f64_texts(*f64_text);
    let (hdr, _, funcs) = match parse_semcode(bytes) {
        Ok(p) => p,
        Err(e) => return Err(e),
    };
    let ghost fs = spec_parse(bytes@)->Ok_0.1;
    let mut out = header_text(&hdr);
    let ghost hl = out@;
    let order = name_order(&funcs);
    let ghost ord = Seq::new(order@.len(), |k: int| order@[k] as int);
    proof {
        let names = Seq::new(funcs@.len(), |k: int| funcs@[k].name@);
        assert forall|k: int| 0 <= k < fs.len() implies names[k] == names_of_images(fs)[k] by {
            assert(image_of(funcs@[k]) == fs[k]);
        }
        assert(names =~= names_of_images(fs));
        assert(in_name_order(names_of_images(fs), ord));
        assert(ord.take(0) =~= Seq::<int>::empty());
    }
    let ghost mut acc: Seq<char> = Seq::empty();
    let mut k: usize = 0;
    while k < order.len()
        invariant
            is_f64_formatter(*f64_text),
            ft == f64_texts(*f64_text),
            k <= order@.len(),
            ord == Seq::new(order@.len(), |k: int| order@[k] as int),
            ord.len() == fs.len(),
            spec_parse(bytes@) is Ok,
            fs == spec_parse(bytes@)->Ok_0.1,
            in_name_order(names_of_images(fs), ord),
            funcs@.len() == fs.len(),
            forall|j: int| 0 <= j < ord.len() ==> 0 <= #[trigger] ord[j] < fs.len(),
            forall|j: int| 0 <= j < fs.len() ==> image_of(#[trigger] funcs@[j]) == fs[j],
            out@ == hl + acc,
            listing(fs, ord.take(k as int), ft) == Ok::<Seq<char>, ErrorModel>(acc),
        decreases order@.len() - k,
    {
        let idx = order[k];
        assert(ord[k as int] == idx as int);
        let ghost t1 = ord.take(k as int + 1);
        assert(t1.drop_last() =~= ord.take(k as int));
        assert(t1.last() == ord[k as int]);
        match function_text(&funcs[idx], f64_text) {
            Ok(t) => {
                out.append(t.as_str());
                proof {
                    assert(out@ =~= hl + (acc + t@));
                    acc = acc + t@;
                }
            },
            Err(e) => {
                proof {
                    assert(function_listing(fs[idx as int], ft) is Err);
                    assert(listing(fs, t1, ft) is Err);
                    lemma_listing_prefix_err(fs, ord, k as int + 1, ft);
                    assert(listing(fs, ord, f64_texts(*f64_text)) == Err::<Seq<char>, ErrorModel>(
                        error_model(e),
                    ));
                    assert(in_name_order(names_of_images(fs), ord));
                }
                return Err(e);
            },
        }
        k = k + 1;
    }
    assert(ord.take(ord.len() as int) =~= ord);
    assert(listing(fs, ord, f64_texts(*f64_text)) == Ok::<Seq<char>, ErrorModel>(acc));
    Ok(out)
}

/// Law: the name order of a set of functions is unique, so the listing
/// `disasm_semcode` gives is determined by the image.
pub proof fn lemma_name_order_unique(names: Seq<Seq<char>>, o1: Seq<int>, o2: Seq<int>)
    requires
        in_name_order(names, o1),
        in_name_order(names, o2),
    ensures
        o1 == o2,
{
    let lt = |a: int, b: int| name_before(names, a, b);
    let n = names.len() as int;
    assert forall|a: int, b: int| #[trigger] lt(a, b) implies !lt(b, a) by {
        let x = encode_utf8(names[a]);
        let y = encode_utf8(names[b]);
        lemma_bytes_before_irreflexive(x, 0);
        lemma_bytes_before_irreflexive(y, 0);
        if bytes_before(x, y, 0) {
            lemma_bytes_before_asym(x, y, 0);
        }
    }
    assert forall|i: int, j: int| 0 <= i < j < o1.len() implies #[trigger] lt(o1[i], o1[j]) by {
        assert(name_before(names, o1[i], o1[j]));
    }
    assert forall|i: int, j: int| 0 <= i < j < o2.len() implies #[trigger] lt(o2[i], o2[j]) by {
        assert(name_before(names, o2[i], o2[j]));
    }
    crate::order::lemma_ordered_indices_unique(o1, o2, n, lt);
}

/// Law: the text `disasm_semcode` gives depends on the bytes alone. Any two
/// orders that put the functions in ascending name order give the same
/// listing, so the header line followed by that listing is the only text
/// its contract admits.
pub proof fn lemma_disasm_determined(
    fs: Seq<FunctionImage>,
    o1: Seq<int>,
    o2: Seq<int>,
    ft: spec_fn(u64) -> Seq<char>,
)
    requires
        in_name_order(names_of_images(fs), o1),
        in_name_order(names_of_images(fs), o2),
    ensures
        listing(fs, o1, ft) == listing(fs, o2, ft),
{
    lemma_name_order_unique(names_of_images(fs), o1, o2);
}

} // verus!
