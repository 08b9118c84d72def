//! The SemCode byte format: header magics and capabilities, the opcode
//! table and the little-endian readers and writers used by the encoder,
//! the verifier and the virtual machine.
use vstd::prelude::*;
use vstd::utf8::{encode_utf8, valid_utf8};

verus! {

/// Capability bit: the image carries debug symbols (bit 0).
pub const CAP_DEBUG_SYMBOLS: u32 = 1;

/// Capability bit: the image may use `f64` arithmetic (bit 1).
pub const CAP_F64_MATH: u32 = 2;

/// Capability bit: the image may use gate reads, writes and pulses (bit 2).
pub const CAP_GATE_SURFACE: u32 = 4;

/// Capability bit: the image may carry fixed-point values (bit 3).
pub const CAP_FX_VALUES: u32 = 8;

/// The eight magic bytes `SEMCODE` followed by the ASCII digit `d`.
pub open spec fn magic_bytes(d: u8) -> Seq<u8> {
    seq![0x53u8, 0x45u8, 0x4Du8, 0x43u8, 0x4Fu8, 0x44u8, 0x45u8, d]
}

/// What a SemCode image announces in its header.
#[derive(Debug, Clone, Copy)]
pub struct SemcodeHeaderSpec {
    pub magic: [u8; 8],
    pub epoch: u16,
    pub rev: u16,
    pub capabilities: u32,
}

/// A header seen as plain values: magic bytes, epoch, revision, capabilities.
pub open spec fn header_view(h: SemcodeHeaderSpec) -> (Seq<u8>, u16, u16, u32) {
    (h.magic@, h.epoch, h.rev, h.capabilities)
}

/// The headers this format knows, oldest first.
pub open spec fn spec_supported_headers() -> Seq<(Seq<u8>, u16, u16, u32)> {
    seq![
        (magic_bytes(0x30), 0u16, 1u16, 5u32),
        (magic_bytes(0x31), 0u16, 2u16, 7u32),
        (magic_bytes(0x32), 0u16, 3u16, 15u32),
    ]
}

fn make_header(d: u8, rev: u16, capabilities: u32) -> (h: SemcodeHeaderSpec)
    ensures
        header_view(h) == (magic_bytes(d), 0u16, rev, capabilities),
{
    let magic: [u8; 8] = [0x53u8, 0x45u8, 0x4Du8, 0x43u8, 0x4Fu8, 0x44u8, 0x45u8, d];
    assert(magic@ =~= magic_bytes(d));
    SemcodeHeaderSpec { magic, epoch: 0, rev, capabilities }
}

/// Format epoch 0, revision 1: debug symbols and gate-surface access.
pub fn header_v0() -> (h: SemcodeHeaderSpec)
    ensures
        header_view(h) == spec_supported_headers()[0],
{
    assert(1u32 | 4u32 == 5u32) by (bit_vector);
    make_header(0x30, 1, CAP_DEBUG_SYMBOLS | CAP_GATE_SURFACE)
}

/// Format epoch 0, revision 2: adds `f64` arithmetic.
pub fn header_v1() -> (h: SemcodeHeaderSpec)
    ensures
        header_view(h) == spec_supported_headers()[1],
{
    assert(1u32 | 2u32 | 4u32 == 7u32) by (bit_vector);
    make_header(0x31, 2, CAP_DEBUG_SYMBOLS | CAP_F64_MATH | CAP_GATE_SURFACE)
}

/// Format epoch 0, revision 3: adds fixed-point values.
pub fn header_v2() -> (h: SemcodeHeaderSpec)
    ensures
        header_view(h) == spec_supported_headers()[2],
{
    assert(1u32 | 2u32 | 4u32 | 8u32 == 15u32) by (bit_vector);
    make_header(0x32, 3, CAP_DEBUG_SYMBOLS | CAP_F64_MATH | CAP_GATE_SURFACE | CAP_FX_VALUES)
}

/// Every header the format supports, oldest first.
pub fn supported_headers() -> (hs: Vec<SemcodeHeaderSpec>)
    ensures
        hs@.len() == spec_supported_headers().len(),
        forall|k: int|
            0 <= k < hs@.len() ==> header_view(#[trigger] hs@[k]) == spec_supported_headers()[k],
{
    let mut hs: Vec<SemcodeHeaderSpec> = Vec::new();
    hs.push(header_v0());
    hs.push(header_v1());
    hs.push(header_v2());
    hs
}

/// The names of all fourteen headers of the SemCode family, oldest first,
/// as a hint lists them. This library reads images under the first three;
/// the layout behind the other eleven is not defined here.
pub open spec fn spec_family_header_names() -> Seq<char> {
    "SEMCODE0, SEMCODE1, SEMCODE2, SEMCODE3, SEMCODE4, SEMCODE5, SEMCODE6, SEMCODE7, SEMCODE8, SEMCODE9, SEMCOD10, SEMCOD11, SEMCOD12, SEMCOD13"@
}

/// The header names of the family, as `spec_family_header_names` gives them.
pub fn family_header_names() -> (s: String)
    ensures
        s@ == spec_family_header_names(),
{
    String::from_str(
        "SEMCODE0, SEMCODE1, SEMCODE2, SEMCODE3, SEMCODE4, SEMCODE5, SEMCODE6, SEMCODE7, SEMCODE8, SEMCODE9, SEMCOD10, SEMCOD11, SEMCOD12, SEMCOD13",
    )
}

/// The index of the first supported header whose magic is `magic`, if any.
pub open spec fn header_index_of_magic(magic: Seq<u8>) -> Option<int> {
    if magic == spec_supported_headers()[0].0 {
        Some(0)
    } else if magic == spec_supported_headers()[1].0 {
        Some(1)
    } else if magic == spec_supported_headers()[2].0 {
        Some(2)
    } else {
        None
    }
}

fn magic_eq(a: &[u8; 8], b: &[u8; 8]) -> (r: bool)
    ensures
        r == (a@ == b@),
{
    let mut k: usize = 0;
    while k < 8
        invariant
            k <= 8,
            a@.len() == 8,
            b@.len() == 8,
            forall|j: int| 0 <= j < k ==> a@[j] == b@[j],
        decreases 8 - k,
    {
        if a[k] != b[k] {
            return false;
        }
        k = k + 1;
    }
    assert(a@ =~= b@);
    true
}

/// The supported header announced by `magic`, or `None` for an unknown magic.
pub fn header_spec_from_magic(magic: &[u8; 8]) -> (r: Option<SemcodeHeaderSpec>)
    ensures
        match header_index_of_magic(magic@) {
            Some(k) => r matches Some(h) && header_view(h) == spec_supported_headers()[k],
            None => r is None,
        },
{
    let hs = supported_headers();
    let mut k: usize = 0;
    while k < hs.len()
        invariant
            k <= hs@.len(),
            hs@.len() == spec_supported_headers().len(),
            forall|j: int|
                0 <= j < hs@.len() ==> header_view(#[trigger] hs@[j])
                    == spec_supported_headers()[j],
            forall|j: int| 0 <= j < k ==> magic@ != spec_supported_headers()[j].0,
        decreases hs@.len() - k,
    {
        let h = hs[k];
        assert(header_view(hs@[k as int]) == spec_supported_headers()[k as int]);
        if magic_eq(&h.magic, magic) {
            return Some(h);
        }
        k = k + 1;
    }
    None
}

/// The instruction set of the SemCode format.
#[derive(Debug, Clone, Copy, PartialEq, Eq, Structural, Hash)]
pub enum Opcode {
    LoadQ,
    LoadBool,
    LoadI32,
    AddI32,
    LoadU32,
    LoadVar,
    StoreVar,
    QAnd,
    QOr,
    QNot,
    QImpl,
    BoolAnd,
    BoolOr,
    BoolNot,
    CmpEq,
    CmpNe,
    CmpI32Lt,
    CmpI32Le,
    Jmp,
    JmpIf,
    Call,
    Ret,
    Assert,
    MakeTuple,
    TupleGet,
    LoadF64,
    AddF64,
    SubF64,
    MulF64,
    DivF64,
    LoadFx,
    GateRead,
    GateWrite,
    PulseEmit,
}

/// Why a byte stream could not be read as SemCode.
#[derive(Debug, Clone, Copy, PartialEq, Eq, Structural)]
pub enum SemcodeFormatError {
    UnexpectedEof,
    InvalidUtf8,
    UnknownOpcode(u8),
}

/// The message an error is reported with.
pub open spec fn error_text(e: SemcodeFormatError) -> Seq<char> {
    match e {
        SemcodeFormatError::UnexpectedEof => "unexpected EOF"@,
        SemcodeFormatError::InvalidUtf8 => "invalid utf8"@,
        SemcodeFormatError::UnknownOpcode(v) => "unknown opcode 0x"@ + crate::text::hex2(v),
    }
}

impl SemcodeFormatError {
    /// The message the error is reported with; an unknown opcode is shown
    /// in two lower-case hexadecimal digits.
    pub fn message(&self) -> (s: String)
        ensures
            s@ == error_text(*self),
    {
        match self {
            SemcodeFormatError::UnexpectedEof => String::from_str("unexpected EOF"),
            SemcodeFormatError::InvalidUtf8 => String::from_str("invalid utf8"),
            SemcodeFormatError::UnknownOpcode(v) => {
                let mut m = String::from_str("unknown opcode 0x");
                crate::text::push_hex2(&mut m, *v);
                m
            },
        }
    }
}

/// The byte that encodes `op`.
pub open spec fn opcode_byte(op: Opcode) -> u8 {
    match op {
        Opcode::LoadQ => 0x01,
        Opcode::LoadBool => 0x02,
        Opcode::LoadI32 => 0x03,
        Opcode::LoadVar => 0x04,
        Opcode::StoreVar => 0x05,
        Opcode::LoadU32 => 0x06,
        Opcode::AddI32 => 0x07,
        Opcode::QAnd => 0x10,
        Opcode::QOr => 0x11,
        Opcode::QNot => 0x12,
        Opcode::QImpl => 0x13,
        Opcode::BoolAnd => 0x14,
        Opcode::BoolOr => 0x15,
        Opcode::BoolNot => 0x16,
        Opcode::CmpEq => 0x20,
        Opcode::CmpNe => 0x21,
        Opcode::CmpI32Lt => 0x22,
        Opcode::CmpI32Le => 0x23,
        Opcode::Jmp => 0x30,
        Opcode::JmpIf => 0x31,
        Opcode::Call => 0x40,
        Opcode::Ret => 0x41,
        Opcode::Assert => 0x42,
        Opcode::MakeTuple => 0x43,
        Opcode::TupleGet => 0x44,
        Opcode::LoadF64 => 0x50,
        Opcode::AddF64 => 0x51,
        Opcode::SubF64 => 0x52,
        Opcode::MulF64 => 0x53,
        Opcode::DivF64 => 0x54,
        Opcode::LoadFx => 0x55,
        Opcode::GateRead => 0x60,
        Opcode::GateWrite => 0x61,
        Opcode::PulseEmit => 0x62,
    }
}

/// The opcode that byte `v` encodes, if any.
pub open spec fn opcode_of_byte(v: u8) -> Option<Opcode> {
    if v == 0x01 { Some(Opcode::LoadQ) }
    else if v == 0x02 { Some(Opcode::LoadBool) }
    else if v == 0x03 { Some(Opcode::LoadI32) }
    else if v == 0x04 { Some(Opcode::LoadVar) }
    else if v == 0x05 { Some(Opcode::StoreVar) }
    else if v == 0x06 { Some(Opcode::LoadU32) }
    else if v == 0x07 { Some(Opcode::AddI32) }
    else if v == 0x10 { Some(Opcode::QAnd) }
    else if v == 0x11 { Some(Opcode::QOr) }
    else if v == 0x12 { Some(Opcode::QNot) }
    else if v == 0x13 { Some(Opcode::QImpl) }
    else if v == 0x14 { Some(Opcode::BoolAnd) }
    else if v == 0x15 { Some(Opcode::BoolOr) }
    else if v == 0x16 { Some(Opcode::BoolNot) }
    else if v == 0x20 { Some(Opcode::CmpEq) }
    else if v == 0x21 { Some(Opcode::CmpNe) }
    else if v == 0x22 { Some(Opcode::CmpI32Lt) }
    else if v == 0x23 { Some(Opcode::CmpI32Le) }
    else if v == 0x30 { Some(Opcode::Jmp) }
    else if v == 0x31 { Some(Opcode::JmpIf) }
    else if v == 0x40 { Some(Opcode::Call) }
    else if v == 0x41 { Some(Opcode::Ret) }
    else if v == 0x42 { Some(Opcode::Assert) }
    else if v == 0x43 { Some(Opcode::MakeTuple) }
    else if v == 0x44 { Some(Opcode::TupleGet) }
    else if v == 0x50 { Some(Opcode::LoadF64) }
    else if v == 0x51 { Some(Opcode::AddF64) }
    else if v == 0x52 { Some(Opcode::SubF64) }
    else if v == 0x53 { Some(Opcode::MulF64) }
    else if v == 0x54 { Some(Opcode::DivF64) }
    else if v == 0x55 { Some(Opcode::LoadFx) }
    else if v == 0x60 { Some(Opcode::GateRead) }
    else if v == 0x61 { Some(Opcode::GateWrite) }
    else if v == 0x62 { Some(Opcode::PulseEmit) }
    else { None }
}

impl Opcode {
    /// The byte that encodes this opcode.
    pub fn byte(self) -> (b: u8)
        ensures
            b == opcode_byte(self),
    {
        match self {
            Opcode::LoadQ => 0x01,
            Opcode::LoadBool => 0x02,
            Opcode::LoadI32 => 0x03,
            Opcode::LoadVar => 0x04,
            Opcode::StoreVar => 0x05,
            Opcode::LoadU32 => 0x06,
            Opcode::AddI32 => 0x07,
            Opcode::QAnd => 0x10,
            Opcode::QOr => 0x11,
            Opcode::QNot => 0x12,
            Opcode::QImpl => 0x13,
            Opcode::BoolAnd => 0x14,
            Opcode::BoolOr => 0x15,
            Opcode::BoolNot => 0x16,
            Opcode::CmpEq => 0x20,
            Opcode::CmpNe => 0x21,
            Opcode::CmpI32Lt => 0x22,
            Opcode::CmpI32Le => 0x23,
            Opcode::Jmp => 0x30,
            Opcode::JmpIf => 0x31,
            Opcode::Call => 0x40,
            Opcode::Ret => 0x41,
            Opcode::Assert => 0x42,
            Opcode::MakeTuple => 0x43,
            Opcode::TupleGet => 0x44,
            Opcode::LoadF64 => 0x50,
            Opcode::AddF64 => 0x51,
            Opcode::SubF64 => 0x52,
            Opcode::MulF64 => 0x53,
            Opcode::DivF64 => 0x54,
            Opcode::LoadFx => 0x55,
            Opcode::GateRead => 0x60,
            Opcode::GateWrite => 0x61,
            Opcode::PulseEmit => 0x62,
        }
    }

    /// The opcode encoded by `v`; an unknown byte is reported with its value.
    pub fn from_byte(v: u8) -> (r: Result<Opcode, SemcodeFormatError>)
        ensures
            r == match opcode_of_byte(v) {
                Some(op) => Ok::<Opcode, SemcodeFormatError>(op),
                None => Err(SemcodeFormatError::UnknownOpcode(v)),
            },
    {
        match v {
            0x01 => Ok(Opcode::LoadQ),
            0x02 => Ok(Opcode::LoadBool),
            0x03 => Ok(Opcode::LoadI32),
            0x04 => Ok(Opcode::LoadVar),
            0x05 => Ok(Opcode::StoreVar),
            0x06 => Ok(Opcode::LoadU32),
            0x07 => Ok(Opcode::AddI32),
            0x10 => Ok(Opcode::QAnd),
            0x11 => Ok(Opcode::QOr),
            0x12 => Ok(Opcode::QNot),
            0x13 => Ok(Opcode::QImpl),
            0x14 => Ok(Opcode::BoolAnd),
            0x15 => Ok(Opcode::BoolOr),
            0x16 => Ok(Opcode::BoolNot),
            0x20 => Ok(Opcode::CmpEq),
            0x21 => Ok(Opcode::CmpNe),
            0x22 => Ok(Opcode::CmpI32Lt),
            0x23 => Ok(Opcode::CmpI32Le),
            0x30 => Ok(Opcode::Jmp),
            0x31 => Ok(Opcode::JmpIf),
            0x40 => Ok(Opcode::Call),
            0x41 => Ok(Opcode::Ret),
            0x42 => Ok(Opcode::Assert),
            0x43 => Ok(Opcode::MakeTuple),
            0x44 => Ok(Opcode::TupleGet),
            0x50 => Ok(Opcode::LoadF64),
            0x51 => Ok(Opcode::AddF64),
            0x52 => Ok(Opcode::SubF64),
            0x53 => Ok(Opcode::MulF64),
            0x54 => Ok(Opcode::DivF64),
            0x55 => Ok(Opcode::LoadFx),
            0x60 => Ok(Opcode::GateRead),
            0x61 => Ok(Opcode::GateWrite),
            0x62 => Ok(Opcode::PulseEmit),
            _ => Err(SemcodeFormatError::UnknownOpcode(v)),
        }
    }
}

/// Decoding the byte of an opcode gives that opcode back, and a byte that
/// decodes to an opcode is that opcode's byte: the table is one to one.
pub proof fn lemma_opcode_byte_roundtrip(op: Opcode, v: u8)
    ensures
        opcode_of_byte(opcode_byte(op)) == Some(op),
        opcode_of_byte(v) == Some(op) ==> opcode_byte(op) == v,
{
}

/// The two little-endian bytes of `v`.
pub open spec fn le_bytes_u16(v: u16) -> Seq<u8> {
    seq![(v % 256) as u8, (v / 256) as u8]
}

/// The four little-endian bytes of `v`.
pub open spec fn le_bytes_u32(v: u32) -> Seq<u8> {
    seq![(v % 256) as u8, ((v / 256) % 256) as u8, ((v / 65536) % 256) as u8, (v / 16777216) as u8]
}

/// The `u16` stored little-endian at `i` in `b`.
pub open spec fn le_u16_at(b: Seq<u8>, i: int) -> u16 {
    (b[i] + 256 * b[i + 1]) as u16
}

/// The `u32` stored little-endian at `i` in `b`.
pub open spec fn le_u32_at(b: Seq<u8>, i: int) -> u32 {
    (b[i] + 256 * b[i + 1] + 65536 * b[i + 2] + 16777216 * b[i + 3]) as u32
}

/// Appends `v` in little-endian order.
pub fn write_u16_le(out: &mut Vec<u8>, v: u16)
    ensures
        final(out)@ == old(out)@ + le_bytes_u16(v),
{
    out.push((v % 256) as u8);
    out.push((v / 256) as u8);
    assert(out@ =~= old(out)@ + le_bytes_u16(v));
}

/// Appends `v` in little-endian order.
pub fn write_u32_le(out: &mut Vec<u8>, v: u32)
    ensures
        final(out)@ == old(out)@ + le_bytes_u32(v),
{
    out.push((v % 256) as u8);
    out.push(((v / 256) % 256) as u8);
    out.push(((v / 65536) % 256) as u8);
    out.push((v / 16777216) as u8);
    assert(out@ =~= old(out)@ + le_bytes_u32(v));
}

/// Appends the two's-complement bits of `v` in little-endian order.
pub fn write_i32_le(out: &mut Vec<u8>, v: i32)
    ensures
        final(out)@ == old(out)@ + le_bytes_u32(v as u32),
{
    write_u32_le(out, v as u32);
}

/// Reads one byte at `*i` and moves past it.
pub fn read_u8(bytes: &[u8], i: &mut usize) -> (r: Result<u8, SemcodeFormatError>)
    ensures
        *old(i) < bytes@.len() ==> r == Ok::<u8, SemcodeFormatError>(bytes@[*old(i) as int])
            && *final(i) == *old(i) + 1,
        *old(i) >= bytes@.len() ==> r == Err::<u8, SemcodeFormatError>(
            SemcodeFormatError::UnexpectedEof,
        ) && *final(i) == *old(i),
{
    if *i >= bytes.len() {
        return Err(SemcodeFormatError::UnexpectedEof);
    }
    let v = bytes[*i];
    *i = *i + 1;
    Ok(v)
}

/// Reads a little-endian `u16` at `*i` and moves past it.
pub fn read_u16_le(bytes: &[u8], i: &mut usize) -> (r: Result<u16, SemcodeFormatError>)
    ensures
        *old(i) + 2 <= bytes@.len() ==> r == Ok::<u16, SemcodeFormatError>(
            le_u16_at(bytes@, *old(i) as int),
        ) && *final(i) == *old(i) + 2,
        *old(i) + 2 > bytes@.len() ==> r == Err::<u16, SemcodeFormatError>(
            SemcodeFormatError::UnexpectedEof,
        ) && *final(i) == *old(i),
{
    if *i > bytes.len() || bytes.len() - *i < 2 {
        return Err(SemcodeFormatError::UnexpectedEof);
    }
    let b0 = bytes[*i];
    let b1 = bytes[*i + 1];
    let v: u16 = b0 as u16 + (b1 as u16) * 256;
    *i = *i + 2;
    Ok(v)
}

/// Reads a little-endian `u32` at `*i` and moves past it.
pub fn read_u32_le(bytes: &[u8], i: &mut usize) -> (r: Result<u32, SemcodeFormatError>)
    ensures
        *old(i) + 4 <= bytes@.len() ==> r == Ok::<u32, SemcodeFormatError>(
            le_u32_at(bytes@, *old(i) as int),
        ) && *final(i) == *old(i) + 4,
        *old(i) + 4 > bytes@.len() ==> r == Err::<u32, SemcodeFormatError>(
            SemcodeFormatError::UnexpectedEof,
        ) && *final(i) == *old(i),
{
    if *i > bytes.len() || bytes.len() - *i < 4 {
        return Err(SemcodeFormatError::UnexpectedEof);
    }
    let b0 = bytes[*i];
    let b1 = bytes[*i + 1];
    let b2 = bytes[*i + 2];
    let b3 = bytes[*i + 3];
    let v: u32 = b0 as u32 + (b1 as u32) * 256 + (b2 as u32) * 65536 + (b3 as u32) * 16777216;
    *i = *i + 4;
    Ok(v)
}

/// Reads a little-endian two's-complement `i32` at `*i` and moves past it.
pub fn read_i32_le(bytes: &[u8], i: &mut usize) -> (r: Result<i32, SemcodeFormatError>)
    ensures
        *old(i) + 4 <= bytes@.len() ==> r == Ok::<i32, SemcodeFormatError>(
            le_u32_at(bytes@, *old(i) as int) as i32,
        ) && *final(i) == *old(i) + 4,
        *old(i) + 4 > bytes@.len() ==> r == Err::<i32, SemcodeFormatError>(
            SemcodeFormatError::UnexpectedEof,
        ) && *final(i) == *old(i),
{
    match read_u32_le(bytes, i) {
        Ok(u) => Ok(u as i32),
        Err(e) => Err(e),
    }
}

/// Decodes `bytes` as UTF-8 with `std::str::from_utf8` and copies the text.
/// std documents that the call succeeds exactly on valid UTF-8 and that the
/// text it gives is made of those bytes.
#[verifier::external_body]
pub(crate) fn utf8_text(bytes: &[u8]) -> (r: Option<String>)
    ensures
        r is Some <==> valid_utf8(bytes@),
        r matches Some(s) ==> encode_utf8(s@) == bytes@,
{
    match std::str::from_utf8(bytes) {
        Ok(s) => Some(s.to_string()),
        Err(_) => None,
    }
}

/// Reads `len` bytes of UTF-8 text at `*i` and moves past them; on an error
/// the position is left where it was.
pub fn read_utf8(bytes: &[u8], i: &mut usize, len: usize) -> (r: Result<String, SemcodeFormatError>)
    ensures
        *old(i) + len > bytes@.len() ==> r == Err::<String, SemcodeFormatError>(
            SemcodeFormatError::UnexpectedEof,
        ) && *final(i) == *old(i),
        *old(i) + len <= bytes@.len() ==> {
            let text = bytes@.subrange(*old(i) as int, *old(i) + len);
            &&& valid_utf8(text) ==> (r matches Ok(s) && encode_utf8(s@) == text)
            &&& valid_utf8(text) ==> *final(i) == *old(i) + len
            &&& !valid_utf8(text) ==> r == Err::<String, SemcodeFormatError>(
                SemcodeFormatError::InvalidUtf8,
            ) && *final(i) == *old(i)
        },
{
    if *i > bytes.len() || bytes.len() - *i < len {
        return Err(SemcodeFormatError::UnexpectedEof);
    }
    let sub = vstd::slice::slice_subrange(bytes, *i, *i + len);
    match utf8_text(sub) {
        Some(s) => {
            *i = *i + len;
            Ok(s)
        },
        None => Err(SemcodeFormatError::InvalidUtf8),
    }
}

/// What a write of a `u16` appends, a read at that place gives back.
pub proof fn lemma_u16_read_after_write(prefix: Seq<u8>, v: u16)
    ensures
        le_u16_at(prefix + le_bytes_u16(v), prefix.len() as int) == v,
{
    let b = prefix + le_bytes_u16(v);
    assert(b[prefix.len() as int] == (v % 256) as u8);
    assert(b[prefix.len() + 1int] == (v / 256) as u8);
}

/// What a write of a `u32` appends, a read at that place gives back.
pub proof fn lemma_u32_read_after_write(prefix: Seq<u8>, v: u32)
    ensures
        le_u32_at(prefix + le_bytes_u32(v), prefix.len() as int) == v,
{
    let b = prefix + le_bytes_u32(v);
    assert(b[prefix.len() as int] == (v % 256) as u8);
    assert(b[prefix.len() + 1int] == ((v / 256) % 256) as u8);
    assert(b[prefix.len() + 2int] == ((v / 65536) % 256) as u8);
    assert(b[prefix.len() + 3int] == (v / 16777216) as u8);
}

/// What a write of an `i32` appends, a read of an `i32` at that place gives back.
pub proof fn lemma_i32_read_after_write(prefix: Seq<u8>, v: i32)
    ensures
        le_u32_at(prefix + le_bytes_u32(v as u32), prefix.len() as int) as i32 == v,
{
    lemma_u32_read_after_write(prefix, v as u32);
    assert((v as u32) as i32 == v) by (bit_vector);
}

/// The eight little-endian bytes of `v`.
pub open spec fn le_bytes_u64(v: u64) -> Seq<u8> {
    le_bytes_u32((v % 0x1_0000_0000) as u32) + le_bytes_u32((v / 0x1_0000_0000) as u32)
}

/// The `u64` stored little-endian at `i` in `b`.
pub open spec fn le_u64_at(b: Seq<u8>, i: int) -> u64 {
    (le_u32_at(b, i) + 0x1_0000_0000 * le_u32_at(b, i + 4)) as u64
}

/// Appends the bit pattern of an `f64` in little-endian order.
pub fn write_f64_bits_le(out: &mut Vec<u8>, bits: u64)
    ensures
        final(out)@ == old(out)@ + le_bytes_u64(bits),
{
    write_u32_le(out, (bits % 0x1_0000_0000) as u32);
    write_u32_le(out, (bits / 0x1_0000_0000) as u32);
    assert(out@ =~= old(out)@ + le_bytes_u64(bits));
}

/// Reads the little-endian bit pattern of an `f64` at `*i` and moves past it.
pub fn read_f64_bits_le(bytes: &[u8], i: &mut usize) -> (r: Result<u64, SemcodeFormatError>)
    ensures
        *old(i) + 8 <= bytes@.len() ==> r == Ok::<u64, SemcodeFormatError>(
            le_u64_at(bytes@, *old(i) as int),
        ) && *final(i) == *old(i) + 8,
        *old(i) + 8 > bytes@.len() ==> r == Err::<u64, SemcodeFormatError>(
            SemcodeFormatError::UnexpectedEof,
        ) && *final(i) == *old(i),
{
    if *i > bytes.len() || bytes.len() - *i < 8 {
        return Err(SemcodeFormatError::UnexpectedEof);
    }
    let mut j = *i;
    let lo = match read_u32_le(bytes, &mut j) {
        Ok(v) => v,
        Err(e) => return Err(e),
    };
    let hi = match read_u32_le(bytes, &mut j) {
        Ok(v) => v,
        Err(e) => return Err(e),
    };
    *i = j;
    Ok(lo as u64 + (hi as u64) * 0x1_0000_0000)
}

/// Where `le_bytes_u16(v)` stands at `i`, a read there gives `v`.
pub proof fn lemma_le_u16_inverse(s: Seq<u8>, i: int, v: u16)
    requires
        0 <= i,
        i + 2 <= s.len(),
        s.subrange(i, i + 2) == le_bytes_u16(v),
    ensures
        le_u16_at(s, i) == v,
{
    assert(s[i] == s.subrange(i, i + 2)[0]);
    assert(s[i + 1] == s.subrange(i, i + 2)[1]);
}

/// Where `le_bytes_u32(v)` stands at `i`, a read there gives `v`.
pub proof fn lemma_le_u32_inverse(s: Seq<u8>, i: int, v: u32)
    requires
        0 <= i,
        i + 4 <= s.len(),
        s.subrange(i, i + 4) == le_bytes_u32(v),
    ensures
        le_u32_at(s, i) == v,
{
    assert(s[i] == s.subrange(i, i + 4)[0]);
    assert(s[i + 1] == s.subrange(i, i + 4)[1]);
    assert(s[i + 2] == s.subrange(i, i + 4)[2]);
    assert(s[i + 3] == s.subrange(i, i + 4)[3]);
}

/// Where `le_bytes_u64(v)` stands at `i`, a read there gives `v`.
pub proof fn lemma_le_u64_inverse(s: Seq<u8>, i: int, v: u64)
    requires
        0 <= i,
        i + 8 <= s.len(),
        s.subrange(i, i + 8) == le_bytes_u64(v),
    ensures
        le_u64_at(s, i) == v,
{
    let lo = (v % 0x1_0000_0000) as u32;
    let hi = (v / 0x1_0000_0000) as u32;
    assert(s.subrange(i, i + 4) =~= s.subrange(i, i + 8).subrange(0, 4));
    assert(s.subrange(i + 4, i + 8) =~= s.subrange(i, i + 8).subrange(4, 8));
    assert(le_bytes_u64(v).subrange(0, 4) =~= le_bytes_u32(lo));
    assert(le_bytes_u64(v).subrange(4, 8) =~= le_bytes_u32(hi));
    lemma_le_u32_inverse(s, i, lo);
    lemma_le_u32_inverse(s, i + 4, hi);
}

} // verus!
