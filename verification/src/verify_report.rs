//! What the static SemCode checker reports: the kind of each finding, the
//! findings themselves with the function and offset they concern, and the
//! text a rejection is shown with.
use crate::text::{hex_text, push_hex_padded, zero_padded};
use vstd::prelude::*;

verus! {

/// The kind of a finding.
#[derive(Debug, Clone, Copy, PartialEq, Eq, Structural)]
pub enum VerificationCode {
    BadHeader,
    UnsupportedVersion,
    TruncatedFunction,
    InvalidFunctionName,
    InvalidStringTable,
    InvalidDebugSection,
    InvalidOwnershipSection,
    UnknownOpcode,
    OperandOutOfBounds,
    InvalidJumpTarget,
    InvalidStringReference,
    InvalidRegisterReference,
    UnknownCallTarget,
    ResourceLimitExceeded,
    CapabilityViolation,
}

/// One finding: its kind, the function and offset it concerns where there
/// are such, and a message.
#[derive(Debug, Clone, PartialEq, Eq)]
pub struct VerificationDiagnostic {
    pub code: VerificationCode,
    pub function: Option<String>,
    pub offset: Option<usize>,
    pub message: String,
}

/// The findings that made the checker reject an image.
#[derive(Debug, Clone, PartialEq, Eq)]
pub struct RejectReport {
    pub diagnostics: Vec<VerificationDiagnostic>,
}

/// What the checker records of an accepted function.
#[derive(Debug, Clone, PartialEq, Eq)]
pub struct VerifiedFunction {
    pub name: String,
    pub code_len: usize,
    pub string_count: usize,
    pub debug_symbol_count: usize,
}

/// The name a kind is shown with.
pub open spec fn code_name(c: VerificationCode) -> Seq<char> {
    match c {
        VerificationCode::BadHeader => "BadHeader"@,
        VerificationCode::UnsupportedVersion => "UnsupportedVersion"@,
        VerificationCode::TruncatedFunction => "TruncatedFunction"@,
        VerificationCode::InvalidFunctionName => "InvalidFunctionName"@,
        VerificationCode::InvalidStringTable => "InvalidStringTable"@,
        VerificationCode::InvalidDebugSection => "InvalidDebugSection"@,
        VerificationCode::InvalidOwnershipSection => "InvalidOwnershipSection"@,
        VerificationCode::UnknownOpcode => "UnknownOpcode"@,
        VerificationCode::OperandOutOfBounds => "OperandOutOfBounds"@,
        VerificationCode::InvalidJumpTarget => "InvalidJumpTarget"@,
        VerificationCode::InvalidStringReference => "InvalidStringReference"@,
        VerificationCode::InvalidRegisterReference => "InvalidRegisterReference"@,
        VerificationCode::UnknownCallTarget => "UnknownCallTarget"@,
        VerificationCode::ResourceLimitExceeded => "ResourceLimitExceeded"@,
        VerificationCode::CapabilityViolation => "CapabilityViolation"@,
    }
}

/// The line a finding is shown with: its kind, then ` in 'f'` when it
/// concerns a function, ` @0x` and the offset in at least four hexadecimal
/// digits when it has one, and the message.
pub open spec fn diagnostic_line(d: VerificationDiagnostic) -> Seq<char> {
    "verify error ["@ + code_name(d.code) + "]"@ + match d.function {
        Some(f) => " in '"@ + f@ + "'"@,
        None => Seq::empty(),
    } + match d.offset {
        Some(o) => " @0x"@ + zero_padded(hex_text(o as nat), 4),
        None => Seq::empty(),
    } + ": "@ + d.message@
}

/// The lines of the findings, separated by line breaks.
pub open spec fn report_text(ds: Seq<VerificationDiagnostic>) -> Seq<char>
    decreases ds.len(),
{
    if ds.len() == 0 {
        Seq::empty()
    } else if ds.len() == 1 {
        diagnostic_line(ds[0])
    } else {
        report_text(ds.drop_last()) + "\n"@ + diagnostic_line(ds.last())
    }
}

impl VerificationCode {
    /// The name the kind is shown with.
    pub fn name(self) -> (s: &'static str)
        ensures
            s@ == code_name(self),
    {
        match self {
            VerificationCode::BadHeader => "BadHeader",
            VerificationCode::UnsupportedVersion => "UnsupportedVersion",
            VerificationCode::TruncatedFunction => "TruncatedFunction",
            VerificationCode::InvalidFunctionName => "InvalidFunctionName",
            VerificationCode::InvalidStringTable => "InvalidStringTable",
            VerificationCode::InvalidDebugSection => "InvalidDebugSection",
            VerificationCode::InvalidOwnershipSection => "InvalidOwnershipSection",
            VerificationCode::UnknownOpcode => "UnknownOpcode",
            VerificationCode::OperandOutOfBounds => "OperandOutOfBounds",
            VerificationCode::InvalidJumpTarget => "InvalidJumpTarget",
            VerificationCode::InvalidStringReference => "InvalidStringReference",
            VerificationCode::InvalidRegisterReference => "InvalidRegisterReference",
            VerificationCode::UnknownCallTarget => "UnknownCallTarget",
            VerificationCode::ResourceLimitExceeded => "ResourceLimitExceeded",
            VerificationCode::CapabilityViolation => "CapabilityViolation",
        }
    }
}

/// A finding with the given parts.
pub fn diag(code: VerificationCode, function: Option<String>, offset: Option<usize>, message: &str) -> (d:
    VerificationDiagnostic)
    ensures
        d.code == code,
        d.function == function,
        d.offset == offset,
        d.message@ == message@,
{
    VerificationDiagnostic { code, function, offset, message: message.to_string() }
}

/// A rejection with one finding, in function `function` at `offset`.
pub fn reject_one(function: &str, code: VerificationCode, offset: usize, message: &str) -> (r: RejectReport)
    ensures
        r.diagnostics@.len() == 1,
        r.diagnostics@[0].code == code,
        r.diagnostics@[0].function matches Some(f) && f@ == function@,
        r.diagnostics@[0].offset == Some(offset),
        r.diagnostics@[0].message@ == message@,
{
    let d = diag(code, Some(function.to_string()), Some(offset), message);
    let mut diagnostics = Vec::new();
    diagnostics.push(d);
    RejectReport { diagnostics }
}

fn push_diagnostic_line(s: &mut String, d: &VerificationDiagnostic)
    ensures
        final(s)@ == old(s)@ + diagnostic_line(*d),
{
    s.append("verify error [");
    s.append(d.code.name());
    s.append("]");
    let ghost after_code = s@;
    match &d.function {
        Some(f) => {
            s.append(" in '");
            s.append(f.as_str());
            s.append("'");
        },
        None => {},
    }
    let ghost after_function = s@;
    match d.offset {
        Some(o) => {
            s.append(" @0x");
            push_hex_padded(s, o as u64, 4);
        },
        None => {},
    }
    s.append(": ");
    s.append(d.message.as_str());
    assert(s@ =~= old(s)@ + diagnostic_line(*d));
}

impl RejectReport {
    /// The report as it is shown: one line per finding.
    pub fn message(&self) -> (s: String)
        ensures
            s@ == report_text(self.diagnostics@),
    {
        let ds = &self.diagnostics;
        let mut s = String::new();
        let mut k: usize = 0;
        assert(ds@.take(0) =~= Seq::<VerificationDiagnostic>::empty());
        while k < ds.len()
            invariant
                k <= ds@.len(),
                s@ == report_text(ds@.take(k as int)),
            decreases ds@.len() - k,
        {
            if k > 0 {
                s.append("\n");
            }
            push_diagnostic_line(&mut s, &ds[k]);
            proof {
                let t = ds@.take(k as int + 1);
                assert(t.drop_last() =~= ds@.take(k as int));
                assert(s@ =~= report_text(t));
            }
            k = k + 1;
        }
        assert(ds@.take(ds@.len() as int) =~= ds@);
        s
    }
}

} // verus!
