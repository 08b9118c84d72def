//! SemCode instructions: their byte encoding and its decoder.
//!
//! Each instruction is its opcode byte followed by little-endian operands.
//! Registers, string ids and counts are `u16`; jump addresses are `u32`
//! offsets into the instruction stream. Decoding is the inverse of encoding:
//! no two well-formed instructions have encodings that are prefixes of the
//! same bytes, and the decoder finds the one that is there.
use crate::semcode_format::{
    le_bytes_u16, le_bytes_u32, le_bytes_u64, le_u16_at, le_u32_at, le_u64_at, lemma_le_u16_inverse,
    lemma_le_u32_inverse, lemma_le_u64_inverse, opcode_byte, opcode_of_byte, write_f64_bits_le,
    write_u16_le, write_u32_le, Opcode, SemcodeFormatError,
};
use vstd::prelude::*;

verus! {

/// A decoded instruction. Flag bytes are kept as they were read, so that
/// encoding a decoded instruction gives back the same bytes.
#[derive(Debug, Clone, PartialEq, Eq)]
#[allow(inconsistent_fields)]
pub enum Instr {
    LoadQ { dst: u16, val: u8 },
    LoadBool { dst: u16, val: u8 },
    LoadI32 { dst: u16, val: i32 },
    LoadU32 { dst: u16, val: u32 },
    LoadF64 { dst: u16, bits: u64 },
    LoadFx { dst: u16, val: i32 },
    LoadVar { dst: u16, sid: u16 },
    StoreVar { sid: u16, src: u16 },
    Unary { op: Opcode, dst: u16, src: u16 },
    Binary { op: Opcode, dst: u16, lhs: u16, rhs: u16 },
    TupleGet { dst: u16, src: u16, index: u16 },
    MakeTuple { dst: u16, items: Vec<u16> },
    Jmp { addr: u32 },
    JmpIf { cond: u16, addr: u32 },
    Call { flag: u8, dst: u16, sid: u16, args: Vec<u16> },
    Ret { flag: u8, src: u16 },
    Assert { cond: u16 },
    GateRead { dst: u16, device_id: u16, port: u16 },
    GateWrite { device_id: u16, port: u16, src: u16 },
    PulseEmit { sid: u16 },
}

/// Opcodes with a destination and one source register.
pub open spec fn is_unary_op(op: Opcode) -> bool {
    op is QNot || op is BoolNot
}

/// Opcodes with a destination and two source registers.
pub open spec fn is_binary_op(op: Opcode) -> bool {
    ||| op is AddI32
    ||| op is QAnd
    ||| op is QOr
    ||| op is QImpl
    ||| op is BoolAnd
    ||| op is BoolOr
    ||| op is CmpEq
    ||| op is CmpNe
    ||| op is CmpI32Lt
    ||| op is CmpI32Le
    ||| op is AddF64
    ||| op is SubF64
    ||| op is MulF64
    ||| op is DivF64
}

/// The opcode an instruction is encoded with.
pub open spec fn instr_opcode(i: Instr) -> Opcode {
    match i {
        Instr::LoadQ { .. } => Opcode::LoadQ,
        Instr::LoadBool { .. } => Opcode::LoadBool,
        Instr::LoadI32 { .. } => Opcode::LoadI32,
        Instr::LoadU32 { .. } => Opcode::LoadU32,
        Instr::LoadF64 { .. } => Opcode::LoadF64,
        Instr::LoadFx { .. } => Opcode::LoadFx,
        Instr::LoadVar { .. } => Opcode::LoadVar,
        Instr::StoreVar { .. } => Opcode::StoreVar,
        Instr::Unary { op, .. } => op,
        Instr::Binary { op, .. } => op,
        Instr::TupleGet { .. } => Opcode::TupleGet,
        Instr::MakeTuple { .. } => Opcode::MakeTuple,
        Instr::Jmp { .. } => Opcode::Jmp,
        Instr::JmpIf { .. } => Opcode::JmpIf,
        Instr::Call { .. } => Opcode::Call,
        Instr::Ret { .. } => Opcode::Ret,
        Instr::Assert { .. } => Opcode::Assert,
        Instr::GateRead { .. } => Opcode::GateRead,
        Instr::GateWrite { .. } => Opcode::GateWrite,
        Instr::PulseEmit { .. } => Opcode::PulseEmit,
    }
}

/// The instruction can be encoded: its opcode fits its shape, its lists
/// have a `u16` length, and a `Ret` without a source names register 0.
pub open spec fn instr_wf(i: Instr) -> bool {
    match i {
        Instr::Unary { op, .. } => is_unary_op(op),
        Instr::Binary { op, .. } => is_binary_op(op),
        Instr::MakeTuple { items, .. } => items@.len() <= u16::MAX,
        Instr::Call { args, .. } => args@.len() <= u16::MAX,
        Instr::Ret { flag, src } => flag == 0 ==> src == 0,
        _ => true,
    }
}

/// The little-endian bytes of each `u16` of `s`, in order.
pub open spec fn le_bytes_u16s(s: Seq<u16>) -> Seq<u8>
    decreases s.len(),
{
    if s.len() == 0 {
        Seq::empty()
    } else {
        le_bytes_u16s(s.drop_last()) + le_bytes_u16(s.last())
    }
}

/// The bytes of an instruction.
pub open spec fn encode(i: Instr) -> Seq<u8> {
    let op = seq![opcode_byte(instr_opcode(i))];
    match i {
        Instr::LoadQ { dst, val } => op + le_bytes_u16(dst) + seq![val],
        Instr::LoadBool { dst, val } => op + le_bytes_u16(dst) + seq![val],
        Instr::LoadI32 { dst, val } => op + le_bytes_u16(dst) + le_bytes_u32(val as u32),
        Instr::LoadU32 { dst, val } => op + le_bytes_u16(dst) + le_bytes_u32(val),
        Instr::LoadF64 { dst, bits } => op + le_bytes_u16(dst) + le_bytes_u64(bits),
        Instr::LoadFx { dst, val } => op + le_bytes_u16(dst) + le_bytes_u32(val as u32),
        Instr::LoadVar { dst, sid } => op + le_bytes_u16(dst) + le_bytes_u16(sid),
        Instr::StoreVar { sid, src } => op + le_bytes_u16(sid) + le_bytes_u16(src),
        Instr::Unary { dst, src, .. } => op + le_bytes_u16(dst) + le_bytes_u16(src),
        Instr::Binary { dst, lhs, rhs, .. } => op + le_bytes_u16(dst) + le_bytes_u16(lhs)
            + le_bytes_u16(rhs),
        Instr::TupleGet { dst, src, index } => op + le_bytes_u16(dst) + le_bytes_u16(src)
            + le_bytes_u16(index),
        Instr::MakeTuple { dst, items } => op + le_bytes_u16(dst) + le_bytes_u16(
            items@.len() as u16,
        ) + le_bytes_u16s(items@),
        Instr::Jmp { addr } => op + le_bytes_u32(addr),
        Instr::JmpIf { cond, addr } => op + le_bytes_u16(cond) + le_bytes_u32(addr),
        Instr::Call { flag, dst, sid, args } => op + seq![flag] + le_bytes_u16(dst) + le_bytes_u16(
            sid,
        ) + le_bytes_u16(args@.len() as u16) + le_bytes_u16s(args@),
        Instr::Ret { flag, src } => op + seq![flag] + (if flag != 0 {
            le_bytes_u16(src)
        } else {
            Seq::empty()
        }),
        Instr::Assert { cond } => op + le_bytes_u16(cond),
        Instr::GateRead { dst, device_id, port } => op + le_bytes_u16(dst) + le_bytes_u16(
            device_id,
        ) + le_bytes_u16(port),
        Instr::GateWrite { device_id, port, src } => op + le_bytes_u16(device_id) + le_bytes_u16(
            port,
        ) + le_bytes_u16(src),
        Instr::PulseEmit { sid } => op + le_bytes_u16(sid),
    }
}

/// The well-formed instruction `i` is encoded at `pc` in `code`.
pub open spec fn decodes_to(code: Seq<u8>, pc: int, i: Instr) -> bool {
    &&& instr_wf(i)
    &&& 0 <= pc
    &&& pc + encode(i).len() <= code.len()
    &&& code.subrange(pc, pc + encode(i).len()) == encode(i)
}

/// Two instructions are the same, their lists compared by contents.
pub open spec fn same_instr(a: Instr, b: Instr) -> bool {
    match (a, b) {
        (Instr::MakeTuple { dst: d1, items: i1 }, Instr::MakeTuple { dst: d2, items: i2 }) => d1
            == d2 && i1@ == i2@,
        (
            Instr::Call { flag: f1, dst: d1, sid: s1, args: a1 },
            Instr::Call { flag: f2, dst: d2, sid: s2, args: a2 },
        ) => f1 == f2 && d1 == d2 && s1 == s2 && a1@ == a2@,
        _ => a == b,
    }
}

/// The encoded length of each `u16` list is twice its length, and item `k`
/// sits at bytes `2k` and `2k + 1`.
pub proof fn lemma_le_bytes_u16s(s: Seq<u16>)
    ensures
        le_bytes_u16s(s).len() == 2 * s.len(),
        forall|k: int|
            0 <= k < s.len() ==> #[trigger] le_bytes_u16s(s).subrange(2 * k, 2 * k + 2)
                == le_bytes_u16(s[k]),
    decreases s.len(),
{
    if s.len() > 0 {
        let p = s.drop_last();
        lemma_le_bytes_u16s(p);
        let e = le_bytes_u16s(s);
        assert(e == le_bytes_u16s(p) + le_bytes_u16(s.last()));
        assert forall|k: int| 0 <= k < s.len() implies #[trigger] e.subrange(2 * k, 2 * k + 2)
            == le_bytes_u16(s[k]) by {
            if k < p.len() {
                assert(e.subrange(2 * k, 2 * k + 2) =~= le_bytes_u16s(p).subrange(2 * k, 2 * k + 2));
                assert(p[k] == s[k]);
            } else {
                assert(e.subrange(2 * k, 2 * k + 2) =~= le_bytes_u16(s.last()));
            }
        }
    }
}

/// Reading a `u16` at offset `o` of an encoding found at `pc` gives the
/// value whose bytes stand at that offset.
proof fn lemma_u16_field(code: Seq<u8>, pc: int, enc: Seq<u8>, o: int, v: u16)
    requires
        0 <= pc,
        pc + enc.len() <= code.len(),
        code.subrange(pc, pc + enc.len()) == enc,
        0 <= o,
        o + 2 <= enc.len(),
        enc.subrange(o, o + 2) == le_bytes_u16(v),
    ensures
        le_u16_at(code, pc + o) == v,
{
    assert(code.subrange(pc + o, pc + o + 2) =~= enc.subrange(o, o + 2));
    lemma_le_u16_inverse(code, pc + o, v);
}

proof fn lemma_u32_field(code: Seq<u8>, pc: int, enc: Seq<u8>, o: int, v: u32)
    requires
        0 <= pc,
        pc + enc.len() <= code.len(),
        code.subrange(pc, pc + enc.len()) == enc,
        0 <= o,
        o + 4 <= enc.len(),
        enc.subrange(o, o + 4) == le_bytes_u32(v),
    ensures
        le_u32_at(code, pc + o) == v,
{
    assert(code.subrange(pc + o, pc + o + 4) =~= enc.subrange(o, o + 4));
    lemma_le_u32_inverse(code, pc + o, v);
}

proof fn lemma_u64_field(code: Seq<u8>, pc: int, enc: Seq<u8>, o: int, v: u64)
    requires
        0 <= pc,
        pc + enc.len() <= code.len(),
        code.subrange(pc, pc + enc.len()) == enc,
        0 <= o,
        o + 8 <= enc.len(),
        enc.subrange(o, o + 8) == le_bytes_u64(v),
    ensures
        le_u64_at(code, pc + o) == v,
{
    assert(code.subrange(pc + o, pc + o + 8) =~= enc.subrange(o, o + 8));
    lemma_le_u64_inverse(code, pc + o, v);
}

proof fn lemma_u16_list_field(code: Seq<u8>, pc: int, enc: Seq<u8>, o: int, items: Seq<u16>)
    requires
        0 <= pc,
        pc + enc.len() <= code.len(),
        code.subrange(pc, pc + enc.len()) == enc,
        0 <= o,
        o + 2 * items.len() <= enc.len(),
        enc.subrange(o, o + 2 * items.len()) == le_bytes_u16s(items),
    ensures
        forall|k: int| 0 <= k < items.len() ==> le_u16_at(code, pc + o + 2 * k) == #[trigger] items[k],
{
    lemma_le_bytes_u16s(items);
    assert forall|k: int| 0 <= k < items.len() implies le_u16_at(code, pc + o + 2 * k)
        == #[trigger] items[k] by {
        assert(enc.subrange(o + 2 * k, o + 2 * k + 2) =~= le_bytes_u16s(items).subrange(
            2 * k,
            2 * k + 2,
        ));
        lemma_u16_field(code, pc, enc, o + 2 * k, items[k]);
    }
}

/// The operands an instruction found at `pc` must have: each is what the
/// bytes at its offset say.
pub open spec fn operands_read_from(code: Seq<u8>, pc: int, i: Instr) -> bool {
    match i {
        Instr::LoadQ { dst, val } => dst == le_u16_at(code, pc + 1) && val == code[pc + 3],
        Instr::LoadBool { dst, val } => dst == le_u16_at(code, pc + 1) && val == code[pc + 3],
        Instr::LoadI32 { dst, val } => dst == le_u16_at(code, pc + 1) && val == le_u32_at(
            code,
            pc + 3,
        ) as i32,
        Instr::LoadU32 { dst, val } => dst == le_u16_at(code, pc + 1) && val == le_u32_at(
            code,
            pc + 3,
        ),
        Instr::LoadF64 { dst, bits } => dst == le_u16_at(code, pc + 1) && bits == le_u64_at(
            code,
            pc + 3,
        ),
        Instr::LoadFx { dst, val } => dst == le_u16_at(code, pc + 1) && val == le_u32_at(
            code,
            pc + 3,
        ) as i32,
        Instr::LoadVar { dst, sid } => dst == le_u16_at(code, pc + 1) && sid == le_u16_at(
            code,
            pc + 3,
        ),
        Instr::StoreVar { sid, src } => sid == le_u16_at(code, pc + 1) && src == le_u16_at(
            code,
            pc + 3,
        ),
        Instr::Unary { dst, src, .. } => dst == le_u16_at(code, pc + 1) && src == le_u16_at(
            code,
            pc + 3,
        ),
        Instr::Binary { dst, lhs, rhs, .. } => dst == le_u16_at(code, pc + 1) && lhs == le_u16_at(
            code,
            pc + 3,
        ) && rhs == le_u16_at(code, pc + 5),
        Instr::TupleGet { dst, src, index } => dst == le_u16_at(code, pc + 1) && src == le_u16_at(
            code,
            pc + 3,
        ) && index == le_u16_at(code, pc + 5),
        Instr::MakeTuple { dst, items } => dst == le_u16_at(code, pc + 1) && items@.len()
            == le_u16_at(code, pc + 3) && forall|k: int|
            0 <= k < items@.len() ==> #[trigger] items@[k] == le_u16_at(code, pc + 5 + 2 * k),
        Instr::Jmp { addr } => addr == le_u32_at(code, pc + 1),
        Instr::JmpIf { cond, addr } => cond == le_u16_at(code, pc + 1) && addr == le_u32_at(
            code,
            pc + 3,
        ),
        Instr::Call { flag, dst, sid, args } => flag == code[pc + 1] && dst == le_u16_at(
            code,
            pc + 2,
        ) && sid == le_u16_at(code, pc + 4) && args@.len() == le_u16_at(code, pc + 6) && forall|
            k: int,
        | 0 <= k < args@.len() ==> #[trigger] args@[k] == le_u16_at(code, pc + 8 + 2 * k),
        Instr::Ret { flag, src } => flag == code[pc + 1] && (flag != 0 ==> src == le_u16_at(
            code,
            pc + 2,
        )),
        Instr::Assert { cond } => cond == le_u16_at(code, pc + 1),
        Instr::GateRead { dst, device_id, port } => dst == le_u16_at(code, pc + 1) && device_id
            == le_u16_at(code, pc + 3) && port == le_u16_at(code, pc + 5),
        Instr::GateWrite { device_id, port, src } => device_id == le_u16_at(code, pc + 1) && port
            == le_u16_at(code, pc + 3) && src == le_u16_at(code, pc + 5),
        Instr::PulseEmit { sid } => sid == le_u16_at(code, pc + 1),
    }
}

proof fn lemma_byte_at(code: Seq<u8>, pc: int, e: Seq<u8>, o: int)
    requires
        0 <= pc,
        pc + e.len() <= code.len(),
        code.subrange(pc, pc + e.len()) == e,
        0 <= o < e.len(),
    ensures
        code[pc + o] == e[o],
{
    assert(code[pc + o] == code.subrange(pc, pc + e.len())[o]);
}

proof fn lemma_operands_load_q(code: Seq<u8>, pc: int, i: Instr, e: Seq<u8>)
    requires
        decodes_to(code, pc, i),
        i is LoadQ,
        e == encode(i),
    ensures
        operands_read_from(code, pc, i),
{
    lemma_byte_at(code, pc, e, 1);
    if e.len() > 3 {
        lemma_byte_at(code, pc, e, 3);
    }
    if let Instr::LoadQ { dst, val } = i {
        assert(e.subrange(1int, 3int) =~= le_bytes_u16(dst));
        lemma_u16_field(code, pc, e, 1int, dst);
    }
}

proof fn lemma_operands_load_bool(code: Seq<u8>, pc: int, i: Instr, e: Seq<u8>)
    requires
        decodes_to(code, pc, i),
        i is LoadBool,
        e == encode(i),
    ensures
        operands_read_from(code, pc, i),
{
    lemma_byte_at(code, pc, e, 1);
    if e.len() > 3 {
        lemma_byte_at(code, pc, e, 3);
    }
    if let Instr::LoadBool { dst, val } = i {
        assert(e.subrange(1int, 3int) =~= le_bytes_u16(dst));
        lemma_u16_field(code, pc, e, 1int, dst);
    }
}

proof fn lemma_operands_load_i32(code: Seq<u8>, pc: int, i: Instr, e: Seq<u8>)
    requires
        decodes_to(code, pc, i),
        i is LoadI32,
        e == encode(i),
    ensures
        operands_read_from(code, pc, i),
{
    lemma_byte_at(code, pc, e, 1);
    if e.len() > 3 {
        lemma_byte_at(code, pc, e, 3);
    }
    if let Instr::LoadI32 { dst, val } = i {
        assert(e.subrange(1int, 3int) =~= le_bytes_u16(dst));
        lemma_u16_field(code, pc, e, 1int, dst);
        assert(e.subrange(3int, 7int) =~= le_bytes_u32(val as u32));
        lemma_u32_field(code, pc, e, 3int, val as u32);
        assert((val as u32) as i32 == val) by (bit_vector);
    }
}

proof fn lemma_operands_load_u32(code: Seq<u8>, pc: int, i: Instr, e: Seq<u8>)
    requires
        decodes_to(code, pc, i),
        i is LoadU32,
        e == encode(i),
    ensures
        operands_read_from(code, pc, i),
{
    lemma_byte_at(code, pc, e, 1);
    if e.len() > 3 {
        lemma_byte_at(code, pc, e, 3);
    }
    if let Instr::LoadU32 { dst, val } = i {
        assert(e.subrange(1int, 3int) =~= le_bytes_u16(dst));
        lemma_u16_field(code, pc, e, 1int, dst);
        assert(e.subrange(3int, 7int) =~= le_bytes_u32(val));
        lemma_u32_field(code, pc, e, 3int, val);
    }
}

proof fn lemma_operands_load_f64(code: Seq<u8>, pc: int, i: Instr, e: Seq<u8>)
    requires
        decodes_to(code, pc, i),
        i is LoadF64,
        e == encode(i),
    ensures
        operands_read_from(code, pc, i),
{
    lemma_byte_at(code, pc, e, 1);
    if e.len() > 3 {
        lemma_byte_at(code, pc, e, 3);
    }
    if let Instr::LoadF64 { dst, bits } = i {
        assert(e.subrange(1int, 3int) =~= le_bytes_u16(dst));
        lemma_u16_field(code, pc, e, 1int, dst);
        assert(e.subrange(3int, 11int) =~= le_bytes_u64(bits));
        lemma_u64_field(code, pc, e, 3int, bits);
    }
}

proof fn lemma_operands_load_fx(code: Seq<u8>, pc: int, i: Instr, e: Seq<u8>)
    requires
        decodes_to(code, pc, i),
        i is LoadFx,
        e == encode(i),
    ensures
        operands_read_from(code, pc, i),
{
    lemma_byte_at(code, pc, e, 1);
    if e.len() > 3 {
        lemma_byte_at(code, pc, e, 3);
    }
    if let Instr::LoadFx { dst, val } = i {
        assert(e.subrange(1int, 3int) =~= le_bytes_u16(dst));
        lemma_u16_field(code, pc, e, 1int, dst);
        assert(e.subrange(3int, 7int) =~= le_bytes_u32(val as u32));
        lemma_u32_field(code, pc, e, 3int, val as u32);
        assert((val as u32) as i32 == val) by (bit_vector);
    }
}

proof fn lemma_operands_load_var(code: Seq<u8>, pc: int, i: Instr, e: Seq<u8>)
    requires
        decodes_to(code, pc, i),
        i is LoadVar,
        e == encode(i),
    ensures
        operands_read_from(code, pc, i),
{
    lemma_byte_at(code, pc, e, 1);
    if e.len() > 3 {
        lemma_byte_at(code, pc, e, 3);
    }
    if let Instr::LoadVar { dst, sid } = i {
        assert(e.subrange(1int, 3int) =~= le_bytes_u16(dst));
        lemma_u16_field(code, pc, e, 1int, dst);
        assert(e.subrange(3int, 5int) =~= le_bytes_u16(sid));
        lemma_u16_field(code, pc, e, 3int, sid);
    }
}

proof fn lemma_operands_store_var(code: Seq<u8>, pc: int, i: Instr, e: Seq<u8>)
    requires
        decodes_to(code, pc, i),
        i is StoreVar,
        e == encode(i),
    ensures
        operands_read_from(code, pc, i),
{
    lemma_byte_at(code, pc, e, 1);
    if e.len() > 3 {
        lemma_byte_at(code, pc, e, 3);
    }
    if let Instr::StoreVar { sid, src } = i {
        assert(e.subrange(1int, 3int) =~= le_bytes_u16(sid));
        lemma_u16_field(code, pc, e, 1int, sid);
        assert(e.subrange(3int, 5int) =~= le_bytes_u16(src));
        lemma_u16_field(code, pc, e, 3int, src);
    }
}

proof fn lemma_operands_unary(code: Seq<u8>, pc: int, i: Instr, e: Seq<u8>)
    requires
        decodes_to(code, pc, i),
        i is Unary,
        e == encode(i),
    ensures
        operands_read_from(code, pc, i),
{
    lemma_byte_at(code, pc, e, 1);
    if e.len() > 3 {
        lemma_byte_at(code, pc, e, 3);
    }
    if let Instr::Unary { op, dst, src } = i {
        assert(e.subrange(1int, 3int) =~= le_bytes_u16(dst));
        lemma_u16_field(code, pc, e, 1int, dst);
        assert(e.subrange(3int, 5int) =~= le_bytes_u16(src));
        lemma_u16_field(code, pc, e, 3int, src);
    }
}

proof fn lemma_operands_binary(code: Seq<u8>, pc: int, i: Instr, e: Seq<u8>)
    requires
        decodes_to(code, pc, i),
        i is Binary,
        e == encode(i),
    ensures
        operands_read_from(code, pc, i),
{
    lemma_byte_at(code, pc, e, 1);
    if e.len() > 3 {
        lemma_byte_at(code, pc, e, 3);
    }
    if let Instr::Binary { op, dst, lhs, rhs } = i {
        assert(e.subrange(1int, 3int) =~= le_bytes_u16(dst));
        lemma_u16_field(code, pc, e, 1int, dst);
        assert(e.subrange(3int, 5int) =~= le_bytes_u16(lhs));
        lemma_u16_field(code, pc, e, 3int, lhs);
        assert(e.subrange(5int, 7int) =~= le_bytes_u16(rhs));
        lemma_u16_field(code, pc, e, 5int, rhs);
    }
}

proof fn lemma_operands_tuple_get(code: Seq<u8>, pc: int, i: Instr, e: Seq<u8>)
    requires
        decodes_to(code, pc, i),
        i is TupleGet,
        e == encode(i),
    ensures
        operands_read_from(code, pc, i),
{
    lemma_byte_at(code, pc, e, 1);
    if e.len() > 3 {
        lemma_byte_at(code, pc, e, 3);
    }
    if let Instr::TupleGet { dst, src, index } = i {
        assert(e.subrange(1int, 3int) =~= le_bytes_u16(dst));
        lemma_u16_field(code, pc, e, 1int, dst);
        assert(e.subrange(3int, 5int) =~= le_bytes_u16(src));
        lemma_u16_field(code, pc, e, 3int, src);
        assert(e.subrange(5int, 7int) =~= le_bytes_u16(index));
        lemma_u16_field(code, pc, e, 5int, index);
    }
}

proof fn lemma_operands_make_tuple(code: Seq<u8>, pc: int, i: Instr, e: Seq<u8>)
    requires
        decodes_to(code, pc, i),
        i is MakeTuple,
        e == encode(i),
    ensures
        operands_read_from(code, pc, i),
{
    lemma_byte_at(code, pc, e, 1);
    if e.len() > 3 {
        lemma_byte_at(code, pc, e, 3);
    }
    if let Instr::MakeTuple { dst, items } = i {
        assert(e.subrange(1int, 3int) =~= le_bytes_u16(dst));
        lemma_u16_field(code, pc, e, 1int, dst);
        assert(e.subrange(3int, 5int) =~= le_bytes_u16(items@.len() as u16));
        lemma_u16_field(code, pc, e, 3int, items@.len() as u16);
        lemma_le_bytes_u16s(items@);
        assert(e.subrange(5int, 5 + 2 * items@.len() as int) =~= le_bytes_u16s(items@));
        lemma_u16_list_field(code, pc, e, 5int, items@);
    }
}

proof fn lemma_operands_jmp(code: Seq<u8>, pc: int, i: Instr, e: Seq<u8>)
    requires
        decodes_to(code, pc, i),
        i is Jmp,
        e == encode(i),
    ensures
        operands_read_from(code, pc, i),
{
    lemma_byte_at(code, pc, e, 1);
    if e.len() > 3 {
        lemma_byte_at(code, pc, e, 3);
    }
    if let Instr::Jmp { addr } = i {
        assert(e.subrange(1int, 5int) =~= le_bytes_u32(addr));
        lemma_u32_field(code, pc, e, 1int, addr);
    }
}

proof fn lemma_operands_jmp_if(code: Seq<u8>, pc: int, i: Instr, e: Seq<u8>)
    requires
        decodes_to(code, pc, i),
        i is JmpIf,
        e == encode(i),
    ensures
        operands_read_from(code, pc, i),
{
    lemma_byte_at(code, pc, e, 1);
    if e.len() > 3 {
        lemma_byte_at(code, pc, e, 3);
    }
    if let Instr::JmpIf { cond, addr } = i {
        assert(e.subrange(1int, 3int) =~= le_bytes_u16(cond));
        lemma_u16_field(code, pc, e, 1int, cond);
        assert(e.subrange(3int, 7int) =~= le_bytes_u32(addr));
        lemma_u32_field(code, pc, e, 3int, addr);
    }
}

proof fn lemma_operands_call(code: Seq<u8>, pc: int, i: Instr, e: Seq<u8>)
    requires
        decodes_to(code, pc, i),
        i is Call,
        e == encode(i),
    ensures
        operands_read_from(code, pc, i),
{
    lemma_byte_at(code, pc, e, 1);
    if e.len() > 3 {
        lemma_byte_at(code, pc, e, 3);
    }
    if let Instr::Call { flag, dst, sid, args } = i {
        assert(e[1] == flag);
        assert(e.subrange(2int, 4int) =~= le_bytes_u16(dst));
        lemma_u16_field(code, pc, e, 2int, dst);
        assert(e.subrange(4int, 6int) =~= le_bytes_u16(sid));
        lemma_u16_field(code, pc, e, 4int, sid);
        assert(e.subrange(6int, 8int) =~= le_bytes_u16(args@.len() as u16));
        lemma_u16_field(code, pc, e, 6int, args@.len() as u16);
        lemma_le_bytes_u16s(args@);
        assert(e.subrange(8int, 8 + 2 * args@.len() as int) =~= le_bytes_u16s(args@));
        lemma_u16_list_field(code, pc, e, 8int, args@);
    }
}

proof fn lemma_operands_ret(code: Seq<u8>, pc: int, i: Instr, e: Seq<u8>)
    requires
        decodes_to(code, pc, i),
        i is Ret,
        e == encode(i),
    ensures
        operands_read_from(code, pc, i),
{
    lemma_byte_at(code, pc, e, 1);
    if e.len() > 3 {
        lemma_byte_at(code, pc, e, 3);
    }
    if let Instr::Ret { flag, src } = i {
        assert(e[1] == flag);
        if flag != 0 {
            assert(e.subrange(2int, 4int) =~= le_bytes_u16(src));
            lemma_u16_field(code, pc, e, 2int, src);
        }
    }
}

proof fn lemma_operands_assert(code: Seq<u8>, pc: int, i: Instr, e: Seq<u8>)
    requires
        decodes_to(code, pc, i),
        i is Assert,
        e == encode(i),
    ensures
        operands_read_from(code, pc, i),
{
    lemma_byte_at(code, pc, e, 1);
    if e.len() > 3 {
        lemma_byte_at(code, pc, e, 3);
    }
    if let Instr::Assert { cond } = i {
        assert(e.subrange(1int, 3int) =~= le_bytes_u16(cond));
        lemma_u16_field(code, pc, e, 1int, cond);
    }
}

proof fn lemma_operands_gate_read(code: Seq<u8>, pc: int, i: Instr, e: Seq<u8>)
    requires
        decodes_to(code, pc, i),
        i is GateRead,
        e == encode(i),
    ensures
        operands_read_from(code, pc, i),
{
    lemma_byte_at(code, pc, e, 1);
    if e.len() > 3 {
        lemma_byte_at(code, pc, e, 3);
    }
    if let Instr::GateRead { dst, device_id, port } = i {
        assert(e.subrange(1int, 3int) =~= le_bytes_u16(dst));
        lemma_u16_field(code, pc, e, 1int, dst);
        assert(e.subrange(3int, 5int) =~= le_bytes_u16(device_id));
        lemma_u16_field(code, pc, e, 3int, device_id);
        assert(e.subrange(5int, 7int) =~= le_bytes_u16(port));
        lemma_u16_field(code, pc, e, 5int, port);
    }
}

proof fn lemma_operands_gate_write(code: Seq<u8>, pc: int, i: Instr, e: Seq<u8>)
    requires
        decodes_to(code, pc, i),
        i is GateWrite,
        e == encode(i),
    ensures
        operands_read_from(code, pc, i),
{
    lemma_byte_at(code, pc, e, 1);
    if e.len() > 3 {
        lemma_byte_at(code, pc, e, 3);
    }
    if let Instr::GateWrite { device_id, port, src } = i {
        assert(e.subrange(1int, 3int) =~= le_bytes_u16(device_id));
        lemma_u16_field(code, pc, e, 1int, device_id);
        assert(e.subrange(3int, 5int) =~= le_bytes_u16(port));
        lemma_u16_field(code, pc, e, 3int, port);
        assert(e.subrange(5int, 7int) =~= le_bytes_u16(src));
        lemma_u16_field(code, pc, e, 5int, src);
    }
}

proof fn lemma_operands_pulse_emit(code: Seq<u8>, pc: int, i: Instr, e: Seq<u8>)
    requires
        decodes_to(code, pc, i),
        i is PulseEmit,
        e == encode(i),
    ensures
        operands_read_from(code, pc, i),
{
    lemma_byte_at(code, pc, e, 1);
    if e.len() > 3 {
        lemma_byte_at(code, pc, e, 3);
    }
    if let Instr::PulseEmit { sid } = i {
        assert(e.subrange(1int, 3int) =~= le_bytes_u16(sid));
        lemma_u16_field(code, pc, e, 1int, sid);
    }
}

/// An instruction found at `pc` starts with its opcode byte and has the
/// operands the bytes after it say.
pub proof fn lemma_decoded_operands(code: Seq<u8>, pc: int, i: Instr)
    requires
        decodes_to(code, pc, i),
    ensures
        code[pc] == opcode_byte(instr_opcode(i)),
        operands_read_from(code, pc, i),
{
    let e = encode(i);
    lemma_byte_at(code, pc, e, 0);
    match i {
        Instr::LoadQ { .. } => lemma_operands_load_q(code, pc, i, e),
        Instr::LoadBool { .. } => lemma_operands_load_bool(code, pc, i, e),
        Instr::LoadI32 { .. } => lemma_operands_load_i32(code, pc, i, e),
        Instr::LoadU32 { .. } => lemma_operands_load_u32(code, pc, i, e),
        Instr::LoadF64 { .. } => lemma_operands_load_f64(code, pc, i, e),
        Instr::LoadFx { .. } => lemma_operands_load_fx(code, pc, i, e),
        Instr::LoadVar { .. } => lemma_operands_load_var(code, pc, i, e),
        Instr::StoreVar { .. } => lemma_operands_store_var(code, pc, i, e),
        Instr::Unary { .. } => lemma_operands_unary(code, pc, i, e),
        Instr::Binary { .. } => lemma_operands_binary(code, pc, i, e),
        Instr::TupleGet { .. } => lemma_operands_tuple_get(code, pc, i, e),
        Instr::MakeTuple { .. } => lemma_operands_make_tuple(code, pc, i, e),
        Instr::Jmp { .. } => lemma_operands_jmp(code, pc, i, e),
        Instr::JmpIf { .. } => lemma_operands_jmp_if(code, pc, i, e),
        Instr::Call { .. } => lemma_operands_call(code, pc, i, e),
        Instr::Ret { .. } => lemma_operands_ret(code, pc, i, e),
        Instr::Assert { .. } => lemma_operands_assert(code, pc, i, e),
        Instr::GateRead { .. } => lemma_operands_gate_read(code, pc, i, e),
        Instr::GateWrite { .. } => lemma_operands_gate_write(code, pc, i, e),
        Instr::PulseEmit { .. } => lemma_operands_pulse_emit(code, pc, i, e),
    }
}

/// Decoding is unambiguous: two well-formed instructions found at the same
/// place are the same instruction. With `lemma_encoding_found`, decoding is
/// the inverse of encoding.
pub proof fn lemma_decode_unique(code: Seq<u8>, pc: int, a: Instr, b: Instr)
    requires
        decodes_to(code, pc, a),
        decodes_to(code, pc, b),
    ensures
        same_instr(a, b),
{
    lemma_decoded_operands(code, pc, a);
    lemma_decoded_operands(code, pc, b);
    crate::semcode_format::lemma_opcode_byte_roundtrip(instr_opcode(a), 0);
    crate::semcode_format::lemma_opcode_byte_roundtrip(instr_opcode(b), 0);
    assert(instr_opcode(a) == instr_opcode(b));
    match (a, b) {
        (Instr::MakeTuple { items: x, .. }, Instr::MakeTuple { items: y, .. }) => {
            assert(x@ =~= y@);
        },
        (Instr::Call { args: x, .. }, Instr::Call { args: y, .. }) => {
            assert(x@ =~= y@);
        },
        _ => {},
    }
}

/// An encoding placed in a byte sequence is found there.
pub proof fn lemma_encoding_found(prefix: Seq<u8>, i: Instr, suffix: Seq<u8>)
    requires
        instr_wf(i),
    ensures
        decodes_to(prefix + encode(i) + suffix, prefix.len() as int, i),
{
    let code = prefix + encode(i) + suffix;
    assert(code.subrange(prefix.len() as int, prefix.len() + encode(i).len() as int) =~= encode(i));
}

/// The length of an instruction's encoding without its lists, from its opcode.
pub open spec fn fixed_len(op: Opcode) -> int {
    match op {
        Opcode::LoadQ | Opcode::LoadBool => 4,
        Opcode::LoadI32 | Opcode::LoadU32 | Opcode::LoadFx => 7,
        Opcode::LoadF64 => 11,
        Opcode::LoadVar | Opcode::StoreVar | Opcode::QNot | Opcode::BoolNot => 5,
        Opcode::MakeTuple => 5,
        Opcode::Jmp => 5,
        Opcode::JmpIf => 7,
        Opcode::Call => 8,
        Opcode::Ret => 2,
        Opcode::Assert | Opcode::PulseEmit => 3,
        _ => 7,
    }
}

/// The part of an encoding's length that its opcode does not fix.
pub open spec fn extra_len(i: Instr) -> int {
    match i {
        Instr::MakeTuple { items, .. } => 2 * items@.len() as int,
        Instr::Call { args, .. } => 2 * args@.len() as int,
        Instr::Ret { flag, .. } => if flag != 0 {
            2
        } else {
            0
        },
        _ => 0,
    }
}

/// The encoded length: the fixed part, two bytes per list item, and two
/// more for a `Ret` that carries a source register.
pub proof fn lemma_encode_len(i: Instr)
    requires
        instr_wf(i),
    ensures
        encode(i).len() == fixed_len(instr_opcode(i)) + extra_len(i),
{
    match i {
        Instr::MakeTuple { items, .. } => lemma_le_bytes_u16s(items@),
        Instr::Call { args, .. } => lemma_le_bytes_u16s(args@),
        _ => {},
    }
}

proof fn lemma_u16_bytes_of_read(s: Seq<u8>, k: int)
    requires
        0 <= k,
        k + 2 <= s.len(),
    ensures
        le_bytes_u16(le_u16_at(s, k)) == s.subrange(k, k + 2),
{
    let v = le_u16_at(s, k);
    assert(v % 256 == s[k]);
    assert(v / 256 == s[k + 1]);
    assert(le_bytes_u16(v) =~= s.subrange(k, k + 2));
}

proof fn lemma_u32_bytes_of_read(s: Seq<u8>, k: int)
    requires
        0 <= k,
        k + 4 <= s.len(),
    ensures
        le_bytes_u32(le_u32_at(s, k)) == s.subrange(k, k + 4),
{
    let b0 = s[k] as int;
    let b1 = s[k + 1] as int;
    let b2 = s[k + 2] as int;
    let b3 = s[k + 3] as int;
    let v = le_u32_at(s, k) as int;
    assert(v == b0 + 256 * b1 + 65536 * b2 + 16777216 * b3);
    assert(v % 256 == b0) by (nonlinear_arith)
        requires
            v == b0 + 256 * b1 + 65536 * b2 + 16777216 * b3,
            0 <= b0 < 256,
            0 <= b1 < 256,
            0 <= b2 < 256,
            0 <= b3 < 256,
    ;
    assert((v / 256) % 256 == b1) by (nonlinear_arith)
        requires
            v == b0 + 256 * b1 + 65536 * b2 + 16777216 * b3,
            0 <= b0 < 256,
            0 <= b1 < 256,
            0 <= b2 < 256,
            0 <= b3 < 256,
    ;
    assert((v / 65536) % 256 == b2) by (nonlinear_arith)
        requires
            v == b0 + 256 * b1 + 65536 * b2 + 16777216 * b3,
            0 <= b0 < 256,
            0 <= b1 < 256,
            0 <= b2 < 256,
            0 <= b3 < 256,
    ;
    assert(v / 16777216 == b3) by (nonlinear_arith)
        requires
            v == b0 + 256 * b1 + 65536 * b2 + 16777216 * b3,
            0 <= b0 < 256,
            0 <= b1 < 256,
            0 <= b2 < 256,
            0 <= b3 < 256,
    ;
    assert(le_bytes_u32(le_u32_at(s, k)) =~= s.subrange(k, k + 4));
}

proof fn lemma_u64_bytes_of_read(s: Seq<u8>, k: int)
    requires
        0 <= k,
        k + 8 <= s.len(),
    ensures
        le_bytes_u64(le_u64_at(s, k)) == s.subrange(k, k + 8),
{
    let lo = le_u32_at(s, k);
    let hi = le_u32_at(s, k + 4);
    let v = le_u64_at(s, k);
    assert(v as int == lo + 0x1_0000_0000 * hi);
    assert(v % 0x1_0000_0000 == lo && v / 0x1_0000_0000 == hi) by (nonlinear_arith)
        requires
            v as int == lo + 0x1_0000_0000 * hi,
            0 <= lo < 0x1_0000_0000,
            0 <= hi < 0x1_0000_0000,
    ;
    lemma_u32_bytes_of_read(s, k);
    lemma_u32_bytes_of_read(s, k + 4);
    assert(le_bytes_u64(v) =~= s.subrange(k, k + 8));
}

fn u16_at(code: &[u8], k: usize) -> (v: u16)
    requires
        k + 2 <= code@.len(),
    ensures
        v == le_u16_at(code@, k as int),
        le_bytes_u16(v) == code@.subrange(k as int, k + 2),
{
    proof {
        lemma_u16_bytes_of_read(code@, k as int);
    }
    code[k] as u16 + (code[k + 1] as u16) * 256
}

fn u32_at(code: &[u8], k: usize) -> (v: u32)
    requires
        k + 4 <= code@.len(),
    ensures
        v == le_u32_at(code@, k as int),
        le_bytes_u32(v) == code@.subrange(k as int, k + 4),
{
    proof {
        lemma_u32_bytes_of_read(code@, k as int);
    }
    code[k] as u32 + (code[k + 1] as u32) * 256 + (code[k + 2] as u32) * 65536 + (code[k
        + 3] as u32) * 16777216
}

fn u64_at(code: &[u8], k: usize) -> (v: u64)
    requires
        k + 8 <= code@.len(),
    ensures
        v == le_u64_at(code@, k as int),
        le_bytes_u64(v) == code@.subrange(k as int, k + 8),
{
    proof {
        lemma_u64_bytes_of_read(code@, k as int);
    }
    let mut j = k;
    match crate::semcode_format::read_f64_bits_le(code, &mut j) {
        Ok(v) => v,
        Err(_) => 0,
    }
}

/// What an instruction found at `pc` says about the bytes there: its
/// opcode byte, that its whole encoding fits, and the counts its lists and
/// its `Ret` flag announce.
pub proof fn lemma_decoding_shape(code: Seq<u8>, pc: int, i: Instr)
    requires
        decodes_to(code, pc, i),
    ensures
        opcode_of_byte(code[pc]) == Some(instr_opcode(i)),
        pc + fixed_len(instr_opcode(i)) + extra_len(i) <= code.len(),
        extra_len(i) >= 0,
        i is MakeTuple ==> extra_len(i) == 2 * le_u16_at(code, pc + 3),
        i is Call ==> extra_len(i) == 2 * le_u16_at(code, pc + 6),
        i is Ret ==> extra_len(i) == (if code[pc + 1] != 0 {
            2int
        } else {
            0int
        }),
{
    lemma_decoded_operands(code, pc, i);
    lemma_encode_len(i);
    crate::semcode_format::lemma_opcode_byte_roundtrip(instr_opcode(i), 0);
}

fn fixed_len_of(op: Opcode) -> (n: usize)
    ensures
        n == fixed_len(op),
{
    match op {
        Opcode::LoadQ | Opcode::LoadBool => 4,
        Opcode::LoadI32 | Opcode::LoadU32 | Opcode::LoadFx => 7,
        Opcode::LoadF64 => 11,
        Opcode::LoadVar | Opcode::StoreVar | Opcode::QNot | Opcode::BoolNot => 5,
        Opcode::MakeTuple => 5,
        Opcode::Jmp => 5,
        Opcode::JmpIf => 7,
        Opcode::Call => 8,
        Opcode::Ret => 2,
        Opcode::Assert | Opcode::PulseEmit => 3,
        _ => 7,
    }
}

fn read_u16_list(code: &[u8], start: usize, count: usize) -> (items: Vec<u16>)
    requires
        start + 2 * count <= code@.len(),
    ensures
        items@.len() == count,
        le_bytes_u16s(items@) == code@.subrange(start as int, start + 2 * count),
{
    let mut items: Vec<u16> = Vec::new();
    let mut k: usize = 0;
    let len = code.len();
    while k < count
        invariant
            len == code@.len(),
            start + 2 * count <= code@.len(),
            k <= count,
            items@.len() == k,
            le_bytes_u16s(items@) == code@.subrange(start as int, start + 2 * k),
        decreases count - k,
    {
        let v = u16_at(code, start + 2 * k);
        let ghost before = items@;
        items.push(v);
        proof {
            assert(items@.drop_last() =~= before);
            assert(code@.subrange(start as int, start + 2 * (k + 1)) =~= code@.subrange(
                start as int,
                start + 2 * k,
            ) + code@.subrange(start + 2 * k, start + 2 * k + 2));
        }
        k = k + 1;
    }
    items
}

/// The decoder's contract: an instruction found here and the position after
/// it, or `UnexpectedEof` with none found and a known opcode byte.
pub open spec fn decode_result_ok(
    code: Seq<u8>,
    pc: int,
    r: Result<(Instr, usize), SemcodeFormatError>,
) -> bool {
    match r {
        Ok((i, next)) => decodes_to(code, pc, i) && next == pc + encode(i).len(),
        Err(SemcodeFormatError::UnexpectedEof) => (pc < code.len() ==> opcode_of_byte(code[pc])
            is Some) && forall|j: Instr| !decodes_to(code, pc, j),
        Err(_) => false,
    }
}

fn decode_load_q_or_bool(code: &[u8], pc: usize, op: Opcode) -> (r: Result<(
    Instr,
    usize,
), SemcodeFormatError>)
    requires
        op is LoadQ || op is LoadBool,
        pc < code@.len(),
        opcode_of_byte(code@[pc as int]) == Some(op),
        pc + fixed_len(op) <= code@.len(),
    ensures
        decode_result_ok(code@, pc as int, r),
{
    let ghost c = code@;
    let ghost p = pc as int;
    let b0 = code[pc];
    assert(c.subrange(p, p + 1) =~= seq![b0]);
    let dst = u16_at(code, pc + 1);
    let val = code[pc + 3];
    let i = if b0 == 0x01 {
        Instr::LoadQ { dst, val }
    } else {
        Instr::LoadBool { dst, val }
    };
    assert(c.subrange(p, p + 4) =~= seq![b0] + c.subrange(p + 1, p + 3) + seq![val]);
    assert(c.subrange(p, p + 4) =~= encode(i));
    Ok((i, pc + 4))
}

fn decode_load_i32_or_fx(code: &[u8], pc: usize, op: Opcode) -> (r: Result<(
    Instr,
    usize,
), SemcodeFormatError>)
    requires
        op is LoadI32 || op is LoadFx,
        pc < code@.len(),
        opcode_of_byte(code@[pc as int]) == Some(op),
        pc + fixed_len(op) <= code@.len(),
    ensures
        decode_result_ok(code@, pc as int, r),
{
    let ghost c = code@;
    let ghost p = pc as int;
    let b0 = code[pc];
    assert(c.subrange(p, p + 1) =~= seq![b0]);
    let dst = u16_at(code, pc + 1);
    let raw = u32_at(code, pc + 3);
    let val = raw as i32;
    assert((val as u32) == raw) by (bit_vector)
        requires
            val == raw as i32,
    ;
    let i = if b0 == 0x03 {
        Instr::LoadI32 { dst, val }
    } else {
        Instr::LoadFx { dst, val }
    };
    assert(c.subrange(p, p + 7) =~= seq![b0] + c.subrange(p + 1, p + 3) + c.subrange(
        p + 3,
        p + 7,
    ));
    assert(c.subrange(p, p + 7) =~= encode(i));
    Ok((i, pc + 7))
}

fn decode_load_u32(code: &[u8], pc: usize, op: Opcode) -> (r: Result<(
    Instr,
    usize,
), SemcodeFormatError>)
    requires
        op is LoadU32,
        pc < code@.len(),
        opcode_of_byte(code@[pc as int]) == Some(op),
        pc + fixed_len(op) <= code@.len(),
    ensures
        decode_result_ok(code@, pc as int, r),
{
    let ghost c = code@;
    let ghost p = pc as int;
    let b0 = code[pc];
    assert(c.subrange(p, p + 1) =~= seq![b0]);
    let dst = u16_at(code, pc + 1);
    let val = u32_at(code, pc + 3);
    let i = Instr::LoadU32 { dst, val };
    assert(c.subrange(p, p + 7) =~= seq![b0] + c.subrange(p + 1, p + 3) + c.subrange(
        p + 3,
        p + 7,
    ));
    assert(c.subrange(p, p + 7) =~= encode(i));
    Ok((i, pc + 7))
}

fn decode_load_f64(code: &[u8], pc: usize, op: Opcode) -> (r: Result<(
    Instr,
    usize,
), SemcodeFormatError>)
    requires
        op is LoadF64,
        pc < code@.len(),
        opcode_of_byte(code@[pc as int]) == Some(op),
        pc + fixed_len(op) <= code@.len(),
    ensures
        decode_result_ok(code@, pc as int, r),
{
    let ghost c = code@;
    let ghost p = pc as int;
    let b0 = code[pc];
    assert(c.subrange(p, p + 1) =~= seq![b0]);
    let dst = u16_at(code, pc + 1);
    let bits = u64_at(code, pc + 3);
    let i = Instr::LoadF64 { dst, bits };
    assert(c.subrange(p, p + 11) =~= seq![b0] + c.subrange(p + 1, p + 3) + c.subrange(
        p + 3,
        p + 11,
    ));
    assert(c.subrange(p, p + 11) =~= encode(i));
    Ok((i, pc + 11))
}

fn decode_two_u16(code: &[u8], pc: usize, op: Opcode) -> (r: Result<(
    Instr,
    usize,
), SemcodeFormatError>)
    requires
        op is LoadVar || op is StoreVar || op is QNot || op is BoolNot,
        pc < code@.len(),
        opcode_of_byte(code@[pc as int]) == Some(op),
        pc + fixed_len(op) <= code@.len(),
    ensures
        decode_result_ok(code@, pc as int, r),
{
    let ghost c = code@;
    let ghost p = pc as int;
    let b0 = code[pc];
    assert(c.subrange(p, p + 1) =~= seq![b0]);
    let a = u16_at(code, pc + 1);
    let b = u16_at(code, pc + 3);
    let i = match op {
        Opcode::LoadVar => Instr::LoadVar { dst: a, sid: b },
        Opcode::StoreVar => Instr::StoreVar { sid: a, src: b },
        _ => Instr::Unary { op, dst: a, src: b },
    };
    assert(c.subrange(p, p + 5) =~= seq![b0] + c.subrange(p + 1, p + 3) + c.subrange(
        p + 3,
        p + 5,
    ));
    assert(c.subrange(p, p + 5) =~= encode(i));
    Ok((i, pc + 5))
}

fn decode_jmp(code: &[u8], pc: usize, op: Opcode) -> (r: Result<(
    Instr,
    usize,
), SemcodeFormatError>)
    requires
        op is Jmp,
        pc < code@.len(),
        opcode_of_byte(code@[pc as int]) == Some(op),
        pc + fixed_len(op) <= code@.len(),
    ensures
        decode_result_ok(code@, pc as int, r),
{
    let ghost c = code@;
    let ghost p = pc as int;
    let b0 = code[pc];
    assert(c.subrange(p, p + 1) =~= seq![b0]);
    let addr = u32_at(code, pc + 1);
    let i = Instr::Jmp { addr };
    assert(c.subrange(p, p + 5) =~= seq![b0] + c.subrange(p + 1, p + 5));
    assert(c.subrange(p, p + 5) =~= encode(i));
    Ok((i, pc + 5))
}

fn decode_jmp_if(code: &[u8], pc: usize, op: Opcode) -> (r: Result<(
    Instr,
    usize,
), SemcodeFormatError>)
    requires
        op is JmpIf,
        pc < code@.len(),
        opcode_of_byte(code@[pc as int]) == Some(op),
        pc + fixed_len(op) <= code@.len(),
    ensures
        decode_result_ok(code@, pc as int, r),
{
    let ghost c = code@;
    let ghost p = pc as int;
    let b0 = code[pc];
    assert(c.subrange(p, p + 1) =~= seq![b0]);
    let cond = u16_at(code, pc + 1);
    let addr = u32_at(code, pc + 3);
    let i = Instr::JmpIf { cond, addr };
    assert(c.subrange(p, p + 7) =~= seq![b0] + c.subrange(p + 1, p + 3) + c.subrange(
        p + 3,
        p + 7,
    ));
    assert(c.subrange(p, p + 7) =~= encode(i));
    Ok((i, pc + 7))
}

fn decode_one_u16(code: &[u8], pc: usize, op: Opcode) -> (r: Result<(
    Instr,
    usize,
), SemcodeFormatError>)
    requires
        op is Assert || op is PulseEmit,
        pc < code@.len(),
        opcode_of_byte(code@[pc as int]) == Some(op),
        pc + fixed_len(op) <= code@.len(),
    ensures
        decode_result_ok(code@, pc as int, r),
{
    let ghost c = code@;
    let ghost p = pc as int;
    let b0 = code[pc];
    assert(c.subrange(p, p + 1) =~= seq![b0]);
    let a = u16_at(code, pc + 1);
    let i = if b0 == 0x42 {
        Instr::Assert { cond: a }
    } else {
        Instr::PulseEmit { sid: a }
    };
    assert(c.subrange(p, p + 3) =~= seq![b0] + c.subrange(p + 1, p + 3));
    assert(c.subrange(p, p + 3) =~= encode(i));
    Ok((i, pc + 3))
}

fn decode_ret(code: &[u8], pc: usize, op: Opcode) -> (r: Result<(
    Instr,
    usize,
), SemcodeFormatError>)
    requires
        op is Ret,
        pc < code@.len(),
        opcode_of_byte(code@[pc as int]) == Some(op),
        pc + fixed_len(op) <= code@.len(),
    ensures
        decode_result_ok(code@, pc as int, r),
{
    let ghost c = code@;
    let ghost p = pc as int;
    let b0 = code[pc];
    assert(c.subrange(p, p + 1) =~= seq![b0]);
    let flag = code[pc + 1];
    if flag == 0 {
        let i = Instr::Ret { flag, src: 0 };
        assert(c.subrange(p, p + 2) =~= encode(i));
        Ok((i, pc + 2))
    } else {
        if code.len() - pc < 4 {
            proof {
                assert forall|j: Instr| !decodes_to(code@, pc as int, j) by {
                    if decodes_to(code@, pc as int, j) {
                        lemma_decoding_shape(code@, pc as int, j);
                    }
                }
            }
            return Err(SemcodeFormatError::UnexpectedEof);
        }
        let src = u16_at(code, pc + 2);
        let i = Instr::Ret { flag, src };
        assert(c.subrange(p, p + 4) =~= seq![b0, flag] + c.subrange(p + 2, p + 4));
        assert(c.subrange(p, p + 4) =~= encode(i));
        Ok((i, pc + 4))
    }
}

fn decode_make_tuple(code: &[u8], pc: usize, op: Opcode) -> (r: Result<(
    Instr,
    usize,
), SemcodeFormatError>)
    requires
        op is MakeTuple,
        pc < code@.len(),
        opcode_of_byte(code@[pc as int]) == Some(op),
        pc + fixed_len(op) <= code@.len(),
    ensures
        decode_result_ok(code@, pc as int, r),
{
    let ghost c = code@;
    let ghost p = pc as int;
    let b0 = code[pc];
    assert(c.subrange(p, p + 1) =~= seq![b0]);
    let dst = u16_at(code, pc + 1);
    let count = u16_at(code, pc + 3) as usize;
    if (code.len() - pc - 5) / 2 < count {
        proof {
            assert forall|j: Instr| !decodes_to(code@, pc as int, j) by {
                if decodes_to(code@, pc as int, j) {
                    lemma_decoding_shape(code@, pc as int, j);
                }
            }
        }
        return Err(SemcodeFormatError::UnexpectedEof);
    }
    let items = read_u16_list(code, pc + 5, count);
    let ghost n = 5 + 2 * count;
    let i = Instr::MakeTuple { dst, items };
    assert(c.subrange(p, p + n) =~= seq![b0] + c.subrange(p + 1, p + 3) + c.subrange(
        p + 3,
        p + 5,
    ) + c.subrange(p + 5, p + n));
    proof {
        lemma_le_bytes_u16s(i->items@);
    }
    assert(c.subrange(p, p + n) =~= encode(i));
    Ok((i, pc + 5 + 2 * count))
}

fn decode_call(code: &[u8], pc: usize, op: Opcode) -> (r: Result<(
    Instr,
    usize,
), SemcodeFormatError>)
    requires
        op is Call,
        pc < code@.len(),
        opcode_of_byte(code@[pc as int]) == Some(op),
        pc + fixed_len(op) <= code@.len(),
    ensures
        decode_result_ok(code@, pc as int, r),
{
    let ghost c = code@;
    let ghost p = pc as int;
    let b0 = code[pc];
    assert(c.subrange(p, p + 1) =~= seq![b0]);
    let flag = code[pc + 1];
    let dst = u16_at(code, pc + 2);
    let sid = u16_at(code, pc + 4);
    let count = u16_at(code, pc + 6) as usize;
    if (code.len() - pc - 8) / 2 < count {
        proof {
            assert forall|j: Instr| !decodes_to(code@, pc as int, j) by {
                if decodes_to(code@, pc as int, j) {
                    lemma_decoding_shape(code@, pc as int, j);
                }
            }
        }
        return Err(SemcodeFormatError::UnexpectedEof);
    }
    let args = read_u16_list(code, pc + 8, count);
    let ghost n = 8 + 2 * count;
    let i = Instr::Call { flag, dst, sid, args };
    assert(c.subrange(p, p + n) =~= seq![b0, flag] + c.subrange(p + 2, p + 4) + c.subrange(
        p + 4,
        p + 6,
    ) + c.subrange(p + 6, p + 8) + c.subrange(p + 8, p + n));
    proof {
        lemma_le_bytes_u16s(i->args@);
    }
    assert(c.subrange(p, p + n) =~= encode(i));
    Ok((i, pc + 8 + 2 * count))
}

fn decode_three_u16(code: &[u8], pc: usize, op: Opcode) -> (r: Result<(
    Instr,
    usize,
), SemcodeFormatError>)
    requires
        op is TupleGet || op is GateRead || op is GateWrite || is_binary_op(op),
        pc < code@.len(),
        opcode_of_byte(code@[pc as int]) == Some(op),
        pc + fixed_len(op) <= code@.len(),
    ensures
        decode_result_ok(code@, pc as int, r),
{
    let ghost c = code@;
    let ghost p = pc as int;
    let b0 = code[pc];
    assert(c.subrange(p, p + 1) =~= seq![b0]);
    let a = u16_at(code, pc + 1);
    let b = u16_at(code, pc + 3);
    let d = u16_at(code, pc + 5);
    let i = match op {
        Opcode::TupleGet => Instr::TupleGet { dst: a, src: b, index: d },
        Opcode::GateRead => Instr::GateRead { dst: a, device_id: b, port: d },
        Opcode::GateWrite => Instr::GateWrite { device_id: a, port: b, src: d },
        _ => Instr::Binary { op, dst: a, lhs: b, rhs: d },
    };
    assert(c.subrange(p, p + 7) =~= seq![b0] + c.subrange(p + 1, p + 3) + c.subrange(
        p + 3,
        p + 5,
    ) + c.subrange(p + 5, p + 7));
    assert(c.subrange(p, p + 7) =~= encode(i));
    Ok((i, pc + 7))
}

/// Decodes the instruction at `pc`: the instruction and the position after
/// it; `UnknownOpcode` for a byte that is no opcode, and `UnexpectedEof`
/// when the bytes end before the instruction does.
pub fn decode_instr(code: &[u8], pc: usize) -> (r: Result<(Instr, usize), SemcodeFormatError>)
    ensures
        match r {
            Ok((i, next)) => decodes_to(code@, pc as int, i) && next == pc + encode(i).len(),
            Err(SemcodeFormatError::UnknownOpcode(b)) => pc < code@.len() && b == code@[pc as int]
                && opcode_of_byte(b) is None,
            Err(SemcodeFormatError::UnexpectedEof) => (pc < code@.len() ==> opcode_of_byte(
                code@[pc as int],
            ) is Some) && forall|j: Instr| !decodes_to(code@, pc as int, j),
            Err(SemcodeFormatError::InvalidUtf8) => false,
        },
{
    if pc >= code.len() {
        proof {
            assert forall|j: Instr| !decodes_to(code@, pc as int, j) by {
                if decodes_to(code@, pc as int, j) {
                    lemma_decoding_shape(code@, pc as int, j);
                }
            }
        }
        return Err(SemcodeFormatError::UnexpectedEof);
    }
    let op = match Opcode::from_byte(code[pc]) {
        Ok(op) => op,
        Err(e) => return Err(e),
    };
    let need = fixed_len_of(op);
    if code.len() - pc < need {
        proof {
            assert forall|j: Instr| !decodes_to(code@, pc as int, j) by {
                if decodes_to(code@, pc as int, j) {
                    lemma_decoding_shape(code@, pc as int, j);
                }
            }
        }
        return Err(SemcodeFormatError::UnexpectedEof);
    }
    match op {
        Opcode::LoadQ | Opcode::LoadBool => decode_load_q_or_bool(code, pc, op),
        Opcode::LoadI32 | Opcode::LoadFx => decode_load_i32_or_fx(code, pc, op),
        Opcode::LoadU32 => decode_load_u32(code, pc, op),
        Opcode::LoadF64 => decode_load_f64(code, pc, op),
        Opcode::LoadVar | Opcode::StoreVar | Opcode::QNot | Opcode::BoolNot => decode_two_u16(code, pc, op),
        Opcode::Jmp => decode_jmp(code, pc, op),
        Opcode::JmpIf => decode_jmp_if(code, pc, op),
        Opcode::Assert | Opcode::PulseEmit => decode_one_u16(code, pc, op),
        Opcode::Ret => decode_ret(code, pc, op),
        Opcode::MakeTuple => decode_make_tuple(code, pc, op),
        Opcode::Call => decode_call(code, pc, op),
        _ => decode_three_u16(code, pc, op),
    }
}

fn write_u16_list(out: &mut Vec<u8>, items: &Vec<u16>)
    ensures
        final(out)@ == old(out)@ + le_bytes_u16s(items@),
{
    let mut k: usize = 0;
    while k < items.len()
        invariant
            k <= items@.len(),
            out@ == old(out)@ + le_bytes_u16s(items@.take(k as int)),
        decreases items@.len() - k,
    {
        let ghost before = out@;
        write_u16_le(out, items[k]);
        proof {
            assert(items@.take(k + 1).drop_last() =~= items@.take(k as int));
            assert(items@.take(k + 1).last() == items@[k as int]);
        }
        k = k + 1;
    }
    assert(items@.take(items@.len() as int) =~= items@);
}

/// Appends the encoding of `i`.
pub fn encode_instr(i: &Instr, out: &mut Vec<u8>)
    requires
        instr_wf(*i),
    ensures
        final(out)@ == old(out)@ + encode(*i),
{
    let ghost start = old(out)@;
    match i {
        Instr::LoadQ { dst, val } => {
            out.push(0x01);
            write_u16_le(out, *dst);
            out.push(*val);
        },
        Instr::LoadBool { dst, val } => {
            out.push(0x02);
            write_u16_le(out, *dst);
            out.push(*val);
        },
        Instr::LoadI32 { dst, val } => {
            out.push(0x03);
            write_u16_le(out, *dst);
            write_u32_le(out, *val as u32);
        },
        Instr::LoadU32 { dst, val } => {
            out.push(0x06);
            write_u16_le(out, *dst);
            write_u32_le(out, *val);
        },
        Instr::LoadF64 { dst, bits } => {
            out.push(0x50);
            write_u16_le(out, *dst);
            write_f64_bits_le(out, *bits);
        },
        Instr::LoadFx { dst, val } => {
            out.push(0x55);
            write_u16_le(out, *dst);
            write_u32_le(out, *val as u32);
        },
        Instr::LoadVar { dst, sid } => {
            out.push(0x04);
            write_u16_le(out, *dst);
            write_u16_le(out, *sid);
        },
        Instr::StoreVar { sid, src } => {
            out.push(0x05);
            write_u16_le(out, *sid);
            write_u16_le(out, *src);
        },
        Instr::Unary { op, dst, src } => {
            out.push(op.byte());
            write_u16_le(out, *dst);
            write_u16_le(out, *src);
        },
        Instr::Binary { op, dst, lhs, rhs } => {
            out.push(op.byte());
            write_u16_le(out, *dst);
            write_u16_le(out, *lhs);
            write_u16_le(out, *rhs);
        },
        Instr::TupleGet { dst, src, index } => {
            out.push(0x44);
            write_u16_le(out, *dst);
            write_u16_le(out, *src);
            write_u16_le(out, *index);
        },
        Instr::MakeTuple { dst, items } => {
            out.push(0x43);
            write_u16_le(out, *dst);
            write_u16_le(out, items.len() as u16);
            write_u16_list(out, items);
        },
        Instr::Jmp { addr } => {
            out.push(0x30);
            write_u32_le(out, *addr);
        },
        Instr::JmpIf { cond, addr } => {
            out.push(0x31);
            write_u16_le(out, *cond);
            write_u32_le(out, *addr);
        },
        Instr::Call { flag, dst, sid, args } => {
            out.push(0x40);
            out.push(*flag);
            write_u16_le(out, *dst);
            write_u16_le(out, *sid);
            write_u16_le(out, args.len() as u16);
            write_u16_list(out, args);
        },
        Instr::Ret { flag, src } => {
            out.push(0x41);
            out.push(*flag);
            if *flag != 0 {
                write_u16_le(out, *src);
            }
        },
        Instr::Assert { cond } => {
            out.push(0x42);
            write_u16_le(out, *cond);
        },
        Instr::GateRead { dst, device_id, port } => {
            out.push(0x60);
            write_u16_le(out, *dst);
            write_u16_le(out, *device_id);
            write_u16_le(out, *port);
        },
        Instr::GateWrite { device_id, port, src } => {
            out.push(0x61);
            write_u16_le(out, *device_id);
            write_u16_le(out, *port);
            write_u16_le(out, *src);
        },
        Instr::PulseEmit { sid } => {
            out.push(0x62);
            write_u16_le(out, *sid);
        },
    }
    assert(out@ =~= start + encode(*i));
}

} // verus!
