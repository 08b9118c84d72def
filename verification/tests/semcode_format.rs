use semcode::quad::{quad_and, quad_impl, quad_not, quad_or, quad_to_u8, u8_to_quad, QuadVal};
use semcode::semcode_format::{
    header_spec_from_magic, header_v0, header_v1, header_v2, read_i32_le, read_u16_le,
    read_u32_le, read_u8, read_utf8, supported_headers, write_i32_le, write_u16_le,
    write_u32_le, Opcode, SemcodeFormatError, CAP_DEBUG_SYMBOLS, CAP_F64_MATH, CAP_FX_VALUES,
    CAP_GATE_SURFACE,
};

#[test]
fn headers_carry_magic_revision_and_capabilities() {
    let hs = supported_headers();
    assert_eq!(hs.len(), 3);
    assert_eq!(&hs[0].magic, b"SEMCODE0");
    assert_eq!(&hs[1].magic, b"SEMCODE1");
    assert_eq!(&hs[2].magic, b"SEMCODE2");
    assert_eq!((hs[0].epoch, hs[0].rev), (0, 1));
    assert_eq!((hs[1].epoch, hs[1].rev), (0, 2));
    assert_eq!((hs[2].epoch, hs[2].rev), (0, 3));
    assert_eq!(hs[0].capabilities, CAP_DEBUG_SYMBOLS | CAP_GATE_SURFACE);
    assert_eq!(
        hs[1].capabilities,
        CAP_DEBUG_SYMBOLS | CAP_F64_MATH | CAP_GATE_SURFACE
    );
    assert_eq!(
        hs[2].capabilities,
        CAP_DEBUG_SYMBOLS | CAP_F64_MATH | CAP_GATE_SURFACE | CAP_FX_VALUES
    );
    assert_eq!(header_v0().rev, 1);
    assert_eq!(header_v1().rev, 2);
    assert_eq!(header_v2().capabilities, 15);
}

#[test]
fn header_lookup_by_magic() {
    let h = header_spec_from_magic(b"SEMCODE1").expect("known magic");
    assert_eq!(h.rev, 2);
    assert!(header_spec_from_magic(b"SEMCODE9").is_none());
    assert!(header_spec_from_magic(b"XEMCODE0").is_none());
}

#[test]
fn opcode_bytes_round_trip() {
    let all = [
        Opcode::LoadQ,
        Opcode::LoadBool,
        Opcode::LoadI32,
        Opcode::AddI32,
        Opcode::LoadU32,
        Opcode::LoadVar,
        Opcode::StoreVar,
        Opcode::QAnd,
        Opcode::QOr,
        Opcode::QNot,
        Opcode::QImpl,
        Opcode::BoolAnd,
        Opcode::BoolOr,
        Opcode::BoolNot,
        Opcode::CmpEq,
        Opcode::CmpNe,
        Opcode::CmpI32Lt,
        Opcode::CmpI32Le,
        Opcode::Jmp,
        Opcode::JmpIf,
        Opcode::Call,
        Opcode::Ret,
        Opcode::Assert,
        Opcode::MakeTuple,
        Opcode::TupleGet,
        Opcode::LoadF64,
        Opcode::AddF64,
        Opcode::SubF64,
        Opcode::MulF64,
        Opcode::DivF64,
        Opcode::LoadFx,
        Opcode::GateRead,
        Opcode::GateWrite,
        Opcode::PulseEmit,
    ];
    for op in all {
        assert_eq!(Opcode::from_byte(op.byte()), Ok(op));
    }
    assert_eq!(Opcode::LoadQ.byte(), 0x01);
    assert_eq!(Opcode::AddI32.byte(), 0x07);
    assert_eq!(Opcode::PulseEmit.byte(), 0x62);
    assert_eq!(
        Opcode::from_byte(0xff),
        Err(SemcodeFormatError::UnknownOpcode(0xff))
    );
    assert_eq!(
        SemcodeFormatError::UnknownOpcode(0x0a).message(),
        "unknown opcode 0x0a"
    );
    assert_eq!(SemcodeFormatError::UnexpectedEof.message(), "unexpected EOF");
    assert_eq!(SemcodeFormatError::InvalidUtf8.message(), "invalid utf8");
}

#[test]
fn little_endian_writes_and_reads_agree() {
    let mut out = vec![0xAAu8];
    write_u16_le(&mut out, 0x1234);
    write_u32_le(&mut out, 0xDEADBEEF);
    write_i32_le(&mut out, -2);
    assert_eq!(
        out,
        vec![0xAA, 0x34, 0x12, 0xEF, 0xBE, 0xAD, 0xDE, 0xFE, 0xFF, 0xFF, 0xFF]
    );
    let mut i = 0usize;
    assert_eq!(read_u8(&out, &mut i), Ok(0xAA));
    assert_eq!(read_u16_le(&out, &mut i), Ok(0x1234));
    assert_eq!(read_u32_le(&out, &mut i), Ok(0xDEADBEEF));
    assert_eq!(read_i32_le(&out, &mut i), Ok(-2));
    assert_eq!(i, out.len());
    assert_eq!(read_u8(&out, &mut i), Err(SemcodeFormatError::UnexpectedEof));
    assert_eq!(i, out.len());
}

#[test]
fn short_reads_fail_without_moving() {
    let bytes = [1u8, 2, 3];
    let mut i = 2usize;
    assert_eq!(
        read_u16_le(&bytes, &mut i),
        Err(SemcodeFormatError::UnexpectedEof)
    );
    assert_eq!(i, 2);
    let mut j = 0usize;
    assert_eq!(
        read_u32_le(&bytes, &mut j),
        Err(SemcodeFormatError::UnexpectedEof)
    );
    assert_eq!(j, 0);
    let mut far = usize::MAX;
    assert_eq!(
        read_u16_le(&bytes, &mut far),
        Err(SemcodeFormatError::UnexpectedEof)
    );
}

#[test]
fn utf8_reads_check_bounds_and_encoding() {
    let bytes = b"xhello\xff\xfe";
    let mut i = 1usize;
    assert_eq!(read_utf8(bytes, &mut i, 5), Ok("hello".to_string()));
    assert_eq!(i, 6);
    assert_eq!(
        read_utf8(bytes, &mut i, 2),
        Err(SemcodeFormatError::InvalidUtf8)
    );
    assert_eq!(i, 6);
    assert_eq!(
        read_utf8(bytes, &mut i, 3),
        Err(SemcodeFormatError::UnexpectedEof)
    );
    assert_eq!(i, 6);
    let snow = "é".as_bytes();
    let mut k = 0usize;
    assert_eq!(read_utf8(snow, &mut k, 2), Ok("é".to_string()));
}

#[test]
fn quad_logic_tables() {
    let (n, f, t, s) = (QuadVal::N, QuadVal::F, QuadVal::T, QuadVal::S);
    assert_eq!(quad_to_u8(s), 3);
    assert_eq!(u8_to_quad(6), t);
    assert_eq!(quad_and(t, f), n);
    assert_eq!(quad_or(t, f), s);
    assert_eq!(quad_not(t), f);
    assert_eq!(quad_not(n), n);
    assert_eq!(quad_not(s), s);
    assert_eq!(quad_impl(t, f), f);
    assert_eq!(quad_impl(f, n), t);
    for a in [n, f, t, s] {
        assert_eq!(quad_not(quad_not(a)), a);
        assert_eq!(quad_and(a, s), a);
        assert_eq!(quad_or(a, n), a);
        for b in [n, f, t, s] {
            assert_eq!(quad_and(a, b), quad_and(b, a));
            assert_eq!(quad_not(quad_or(a, b)), quad_or(quad_not(a), quad_not(b)));
        }
    }
}
