//! Structural cleanup: drops repeated labels, code after an unconditional
//! transfer up to the next label, jumps to the very next label, and loads
//! that the next instruction overwrites.
use crate::ir::{label_name, IrFunction, IrInstr};
use crate::passes::{sat_add_u32, IrModule, OptPass, OptReport};
use crate::quad::quad_bits;
use vstd::prelude::*;
use vstd::utf8::encode_utf8;

verus! {

broadcast use vstd::string::group_string_axioms;

/// The structural cleanup pass.
#[derive(Debug, Clone, Copy, PartialEq, Eq, Structural)]
pub struct StructuralCleanupPass;

/// `x` is a label with the same name as the label `out` ends with.
pub open spec fn repeats_last_label(out: Seq<IrInstr>, x: IrInstr) -> bool {
    out.len() > 0 && label_name(x) is Some && label_name(out.last()) == label_name(x)
}

/// `s` with each label dropped that repeats the label kept just before it.
pub open spec fn dedup_labels(s: Seq<IrInstr>) -> Seq<IrInstr>
    decreases s.len(),
{
    if s.len() == 0 {
        Seq::empty()
    } else {
        let r = dedup_labels(s.drop_last());
        if repeats_last_label(r, s.last()) {
            r
        } else {
            r.push(s.last())
        }
    }
}

/// Scans `s` keeping labels, dropping everything between a `Ret` or `Jmp`
/// and the next label; the flag says whether the scan ends in dead code.
pub open spec fn unreachable_scan(s: Seq<IrInstr>) -> (Seq<IrInstr>, bool)
    decreases s.len(),
{
    if s.len() == 0 {
        (Seq::empty(), false)
    } else {
        let (r, dead) = unreachable_scan(s.drop_last());
        let x = s.last();
        if x is Label {
            (r.push(x), false)
        } else if dead {
            (r, true)
        } else {
            (r.push(x), x is Ret || x is Jmp)
        }
    }
}

/// `s` without the instructions no path reaches before the next label.
pub open spec fn strip_unreachable(s: Seq<IrInstr>) -> Seq<IrInstr> {
    unreachable_scan(s).0
}

/// Instruction `k` is a `Jmp` to the label that directly follows it.
pub open spec fn is_noop_jump_at(s: Seq<IrInstr>, k: int) -> bool {
    &&& k + 1 < s.len()
    &&& s[k] matches IrInstr::Jmp { label } && label_name(s[k + 1]) == Some(label@)
}

/// The first `n` instructions of `s` without the no-op jumps among them.
pub open spec fn without_noop_jumps_upto(s: Seq<IrInstr>, n: int) -> Seq<IrInstr>
    decreases n,
{
    if n <= 0 {
        Seq::empty()
    } else {
        let r = without_noop_jumps_upto(s, n - 1);
        if is_noop_jump_at(s, n - 1) {
            r
        } else {
            r.push(s[n - 1])
        }
    }
}

/// `s` without its no-op jumps.
pub open spec fn without_noop_jumps(s: Seq<IrInstr>) -> Seq<IrInstr> {
    without_noop_jumps_upto(s, s.len() as int)
}

/// The FNV-1a 64-bit hash of `bytes`.
pub open spec fn fnv1a64(bytes: Seq<u8>) -> u64
    decreases bytes.len(),
{
    if bytes.len() == 0 {
        0xcbf29ce484222325u64
    } else {
        (fnv1a64(bytes.drop_last()) ^ (bytes.last() as u64)).wrapping_mul(0x100000001b3u64)
    }
}

/// For a load, its destination register and a tag identifying what it loads.
pub open spec fn spec_load_dst_and_payload(i: IrInstr) -> Option<(u16, u64)> {
    match i {
        IrInstr::LoadQ { dst, val } => Some((dst, 0x1000u64 | (quad_bits(val) as u64))),
        IrInstr::LoadBool { dst, val } => Some(
            (dst, 0x2000u64 | (if val { 1u64 } else { 0u64 })),
        ),
        IrInstr::LoadI32 { dst, val } => Some((dst, 0x3000u64 | ((val as i64) as u64))),
        IrInstr::LoadF64 { dst, val } => Some((dst, 0x4000u64 | val)),
        IrInstr::LoadFx { dst, val } => Some((dst, 0x6000u64 | ((val as i64) as u64))),
        IrInstr::LoadVar { dst, name } => Some((dst, 0x5000u64 ^ fnv1a64(encode_utf8(name@)))),
        _ => None,
    }
}

/// Instruction `k` is a load whose register the next instruction loads again.
pub open spec fn is_redundant_load_at(s: Seq<IrInstr>, k: int) -> bool {
    &&& k + 1 < s.len()
    &&& spec_load_dst_and_payload(s[k]) matches Some(a) && spec_load_dst_and_payload(
        s[k + 1],
    ) matches Some(b) && a.0 == b.0
}

/// The first `n` instructions of `s` without the redundant loads among them.
pub open spec fn without_redundant_loads_upto(s: Seq<IrInstr>, n: int) -> Seq<IrInstr>
    decreases n,
{
    if n <= 0 {
        Seq::empty()
    } else {
        let r = without_redundant_loads_upto(s, n - 1);
        if is_redundant_load_at(s, n - 1) {
            r
        } else {
            r.push(s[n - 1])
        }
    }
}

/// `s` without its redundant loads.
pub open spec fn without_redundant_loads(s: Seq<IrInstr>) -> Seq<IrInstr> {
    without_redundant_loads_upto(s, s.len() as int)
}

/// How many instructions went from `before` to `after`, as the pass counts them.
pub open spec fn removed_count(before: Seq<IrInstr>, after: Seq<IrInstr>) -> u32 {
    (before.len() - after.len()) as u32
}

fn same_text(a: &String, b: &String) -> (r: bool)
    ensures
        r == (a@ == b@),
{
    a.eq(b)
}

fn remove_duplicate_consecutive_labels(instrs: &mut Vec<IrInstr>) -> (removed: u32)
    ensures
        final(instrs)@ == dedup_labels(old(instrs)@),
        removed == removed_count(old(instrs)@, final(instrs)@),
{
    let before = instrs.len();
    let mut input: Vec<IrInstr> = Vec::new();
    std::mem::swap(&mut input, instrs);
    let ghost s = input@;
    let mut out: Vec<IrInstr> = Vec::new();
    for instr in it: input.into_iter()
        invariant
            it.seq() == s,
            out@ == dedup_labels(s.take(it.index() as int)),
            out@.len() <= it.index(),
    {
        let ghost k = it.index() as int;
        let dup = if out.len() > 0 {
            match (&out[out.len() - 1], &instr) {
                (IrInstr::Label { name: a }, IrInstr::Label { name: b }) => same_text(a, b),
                _ => false,
            }
        } else {
            false
        };
        proof {
            assert(s.take(k + 1).drop_last() =~= s.take(k));
            assert(s.take(k + 1).last() == instr);
            assert(dup == repeats_last_label(out@, instr));
        }
        if !dup {
            out.push(instr);
        }
    }
    assert(s.take(s.len() as int) =~= s);
    let removed = before - out.len();
    *instrs = out;
    #[verifier::truncate]
    (removed as u32)
}

fn remove_unreachable_until_label(instrs: &mut Vec<IrInstr>) -> (removed: u32)
    ensures
        final(instrs)@ == strip_unreachable(old(instrs)@),
        removed == removed_count(old(instrs)@, final(instrs)@),
{
    let before = instrs.len();
    let mut input: Vec<IrInstr> = Vec::new();
    std::mem::swap(&mut input, instrs);
    let ghost s = input@;
    let mut out: Vec<IrInstr> = Vec::new();
    let mut unreachable = false;
    for instr in it: input.into_iter()
        invariant
            it.seq() == s,
            (out@, unreachable) == unreachable_scan(s.take(it.index() as int)),
            out@.len() <= it.index(),
    {
        let ghost k = it.index() as int;
        proof {
            assert(s.take(k + 1).drop_last() =~= s.take(k));
            assert(s.take(k + 1).last() == instr);
        }
        match &instr {
            IrInstr::Label { .. } => {
                unreachable = false;
                out.push(instr);
            },
            _ => {
                if !unreachable {
                    let terminal = match &instr {
                        IrInstr::Ret { .. } => true,
                        IrInstr::Jmp { .. } => true,
                        _ => false,
                    };
                    out.push(instr);
                    if terminal {
                        unreachable = true;
                    }
                }
            },
        }
    }
    assert(s.take(s.len() as int) =~= s);
    let removed = before - out.len();
    *instrs = out;
    #[verifier::truncate]
    (removed as u32)
}

proof fn lemma_filter_len_noop(s: Seq<IrInstr>, n: int)
    requires
        0 <= n <= s.len(),
    ensures
        without_noop_jumps_upto(s, n).len() <= n,
    decreases n,
{
    if n > 0 {
        lemma_filter_len_noop(s, n - 1);
    }
}

proof fn lemma_filter_len_loads(s: Seq<IrInstr>, n: int)
    requires
        0 <= n <= s.len(),
    ensures
        without_redundant_loads_upto(s, n).len() <= n,
    decreases n,
{
    if n > 0 {
        lemma_filter_len_loads(s, n - 1);
    }
}

fn noop_jump_flags(instrs: &Vec<IrInstr>) -> (flags: Vec<bool>)
    ensures
        flags@.len() == instrs@.len(),
        forall|k: int| 0 <= k < flags@.len() ==> flags@[k] == is_noop_jump_at(instrs@, k),
{
    let mut flags: Vec<bool> = Vec::new();
    let mut k: usize = 0;
    while k < instrs.len()
        invariant
            k <= instrs@.len(),
            flags@.len() == k,
            forall|j: int| 0 <= j < k ==> flags@[j] == is_noop_jump_at(instrs@, j),
        decreases instrs@.len() - k,
    {
        let mut skip = false;
        if k + 1 < instrs.len() {
            if let IrInstr::Jmp { label } = &instrs[k] {
                if let IrInstr::Label { name } = &instrs[k + 1] {
                    skip = same_text(name, label);
                }
            }
        }
        flags.push(skip);
        k = k + 1;
    }
    flags
}

fn remove_noop_jumps(instrs: &mut Vec<IrInstr>) -> (removed: u32)
    ensures
        final(instrs)@ == without_noop_jumps(old(instrs)@),
        removed == removed_count(old(instrs)@, final(instrs)@),
{
    let before = instrs.len();
    let flags = noop_jump_flags(instrs);
    let mut input: Vec<IrInstr> = Vec::new();
    std::mem::swap(&mut input, instrs);
    let ghost s = input@;
    let mut out: Vec<IrInstr> = Vec::new();
    let mut idx: usize = 0;
    let n = flags.len();
    for instr in it: input.into_iter()
        invariant
            it.seq() == s,
            idx == it.index(),
            n == flags@.len(),
            flags@.len() == s.len(),
            forall|k: int| 0 <= k < flags@.len() ==> flags@[k] == is_noop_jump_at(s, k),
            out@ == without_noop_jumps_upto(s, idx as int),
    {
        assert(instr == s[idx as int]);
        assert(idx < n);
        if !flags[idx] {
            out.push(instr);
        }
        idx = idx + 1;
    }
    proof {
        lemma_filter_len_noop(s, s.len() as int);
    }
    let removed = before - out.len();
    *instrs = out;
    #[verifier::truncate]
    (removed as u32)
}

fn fnv1a64_of(name: &String) -> (h: u64)
    ensures
        h == fnv1a64(encode_utf8(name@)),
{
    let bytes = name.as_str().as_bytes();
    let ghost b = bytes@;
    let mut h: u64 = 0xcbf29ce484222325;
    let mut k: usize = 0;
    while k < bytes.len()
        invariant
            b == bytes@,
            b == encode_utf8(name@),
            k <= b.len(),
            h == fnv1a64(b.take(k as int)),
        decreases b.len() - k,
    {
        proof {
            assert(b.take(k + 1).drop_last() =~= b.take(k as int));
        }
        h = h ^ (bytes[k] as u64);
        h = h.wrapping_mul(0x100000001b3);
        k = k + 1;
    }
    assert(b.take(b.len() as int) =~= b);
    h
}

/// For a load, its destination register and a tag for what it loads; `None`
/// for any other instruction.
pub fn load_dst_and_payload(instr: &IrInstr) -> (r: Option<(u16, u64)>)
    ensures
        r == spec_load_dst_and_payload(*instr),
{
    match instr {
        IrInstr::LoadQ { dst, val } => Some((*dst, 0x1000u64 | (crate::quad::quad_to_u8(*val) as u64))),
        IrInstr::LoadBool { dst, val } => Some((*dst, 0x2000u64 | (if *val { 1u64 } else { 0u64 }))),
        IrInstr::LoadI32 { dst, val } => Some((*dst, 0x3000u64 | ((*val as i64) as u64))),
        IrInstr::LoadF64 { dst, val } => Some((*dst, 0x4000u64 | *val)),
        IrInstr::LoadFx { dst, val } => Some((*dst, 0x6000u64 | ((*val as i64) as u64))),
        IrInstr::LoadVar { dst, name } => Some((*dst, 0x5000u64 ^ fnv1a64_of(name))),
        _ => None,
    }
}

fn redundant_load_flags(instrs: &Vec<IrInstr>) -> (flags: Vec<bool>)
    ensures
        flags@.len() == instrs@.len(),
        forall|k: int| 0 <= k < flags@.len() ==> flags@[k] == is_redundant_load_at(instrs@, k),
{
    let mut flags: Vec<bool> = Vec::new();
    let mut k: usize = 0;
    while k < instrs.len()
        invariant
            k <= instrs@.len(),
            flags@.len() == k,
            forall|j: int| 0 <= j < k ==> flags@[j] == is_redundant_load_at(instrs@, j),
        decreases instrs@.len() - k,
    {
        let mut drop_curr = false;
        if k + 1 < instrs.len() {
            if let Some(a) = load_dst_and_payload(&instrs[k]) {
                if let Some(b) = load_dst_and_payload(&instrs[k + 1]) {
                    drop_curr = a.0 == b.0;
                }
            }
        }
        flags.push(drop_curr);
        k = k + 1;
    }
    flags
}

fn remove_redundant_consecutive_loads(instrs: &mut Vec<IrInstr>) -> (removed: u32)
    ensures
        final(instrs)@ == without_redundant_loads(old(instrs)@),
        removed == removed_count(old(instrs)@, final(instrs)@),
{
    let before = instrs.len();
    let flags = redundant_load_flags(instrs);
    let mut input: Vec<IrInstr> = Vec::new();
    std::mem::swap(&mut input, instrs);
    let ghost s = input@;
    let mut out: Vec<IrInstr> = Vec::new();
    let mut idx: usize = 0;
    let n = flags.len();
    for instr in it: input.into_iter()
        invariant
            it.seq() == s,
            idx == it.index(),
            n == flags@.len(),
            flags@.len() == s.len(),
            forall|k: int| 0 <= k < flags@.len() ==> flags@[k] == is_redundant_load_at(s, k),
            out@ == without_redundant_loads_upto(s, idx as int),
    {
        assert(instr == s[idx as int]);
        assert(idx < n);
        if !flags[idx] {
            out.push(instr);
        }
        idx = idx + 1;
    }
    proof {
        lemma_filter_len_loads(s, s.len() as int);
    }
    let removed = before - out.len();
    *instrs = out;
    #[verifier::truncate]
    (removed as u32)
}

/// The four cleanups in the order the pass applies them.
pub open spec fn cleaned(s: Seq<IrInstr>) -> Seq<IrInstr> {
    without_redundant_loads(without_noop_jumps(strip_unreachable(dedup_labels(s))))
}

/// The rewrite count after cleaning one more function whose body is `s`,
/// starting from `acc`.
pub open spec fn cleanup_step(acc: u32, s: Seq<IrInstr>) -> u32 {
    let a = dedup_labels(s);
    let b = strip_unreachable(a);
    let c = without_noop_jumps(b);
    let d = without_redundant_loads(c);
    sat_add_u32(
        sat_add_u32(
            sat_add_u32(sat_add_u32(acc, removed_count(s, a)), removed_count(a, b)),
            removed_count(b, c),
        ),
        removed_count(c, d),
    )
}

/// The rewrite count of the pass over functions whose bodies are `bodies`.
pub open spec fn cleanup_rewrites(bodies: Seq<Seq<IrInstr>>) -> u32
    decreases bodies.len(),
{
    if bodies.len() == 0 {
        0
    } else {
        cleanup_step(cleanup_rewrites(bodies.drop_last()), bodies.last())
    }
}

/// The bodies of the functions `fs`, in order.
pub open spec fn bodies_of(fs: Seq<IrFunction>) -> Seq<Seq<IrInstr>> {
    fs.map_values(|f: IrFunction| f.instrs@)
}

impl OptPass for StructuralCleanupPass {
    fn name(&self) -> (n: &'static str)
        ensures
            n@ == "StructuralCleanup"@,
    {
        "StructuralCleanup"
    }

    fn version(&self) -> (v: u32)
        ensures
            v == 1,
    {
        1
    }

    /// Cleans every function; the report counts the instructions removed.
    fn run(&self, ir: &mut IrModule) -> (r: OptReport)
        ensures
            final(ir).functions@.len() == old(ir).functions@.len(),
            forall|k: int|
                0 <= k < final(ir).functions@.len() ==> (#[trigger] final(ir).functions@[k]).name
                    == old(ir).functions@[k].name && final(ir).functions@[k].instrs@ == cleaned(
                    old(ir).functions@[k].instrs@,
                ),
            r.num_rewrites == cleanup_rewrites(bodies_of(old(ir).functions@)),
            r.changed == (r.num_rewrites != 0),
    {
        let mut input: Vec<IrFunction> = Vec::new();
        std::mem::swap(&mut input, &mut ir.functions);
        let ghost fs = input@;
        let mut out: Vec<IrFunction> = Vec::new();
        let mut rewrites: u32 = 0;
        for func in it: input.into_iter()
            invariant
                it.seq() == fs,
                out@.len() == it.index(),
                forall|k: int|
                    0 <= k < out@.len() ==> (#[trigger] out@[k]).name == fs[k].name
                        && out@[k].instrs@ == cleaned(fs[k].instrs@),
                rewrites == cleanup_rewrites(bodies_of(fs.take(it.index() as int))),
        {
            let ghost k = it.index() as int;
            let IrFunction { name, instrs } = func;
            let mut instrs = instrs;
            let c1 = remove_duplicate_consecutive_labels(&mut instrs);
            let c2 = remove_unreachable_until_label(&mut instrs);
            let c3 = remove_noop_jumps(&mut instrs);
            let c4 = remove_redundant_consecutive_loads(&mut instrs);
            rewrites = rewrites.saturating_add(c1).saturating_add(c2).saturating_add(c3).saturating_add(
                c4,
            );
            proof {
                assert(bodies_of(fs.take(k + 1)).drop_last() =~= bodies_of(fs.take(k)));
                assert(bodies_of(fs.take(k + 1)).last() == fs[k].instrs@);
            }
            out.push(IrFunction { name, instrs });
        }
        assert(fs.take(fs.len() as int) =~= fs);
        ir.functions = out;
        OptReport { changed: rewrites != 0, num_rewrites: rewrites }
    }
}

/// Whether `x` is a jump to the label named by `y`.
pub open spec fn jumps_to_label(x: IrInstr, y: IrInstr) -> bool {
    x matches IrInstr::Jmp { label } && (y matches IrInstr::Label { name } && name@ == label@)
}

proof fn lemma_no_noop_prefix(s: Seq<IrInstr>, n: int)
    requires
        0 <= n <= s.len(),
        forall|k: int| 0 <= k && k + 1 < s.len() ==> !jumps_to_label(#[trigger] s[k], s[k + 1]),
    ensures
        without_noop_jumps_upto(s, n) == s.take(n),
    decreases n,
{
    if n > 0 {
        lemma_no_noop_prefix(s, n - 1);
        if n < s.len() {
            assert(!jumps_to_label(s[n - 1], s[n]));
        }
        assert(!is_noop_jump_at(s, n - 1));
        assert(s.take(n - 1).push(s[n - 1]) =~= s.take(n));
    }
}

/// Law: removing no-op jumps leaves code alone that has no jump directly
/// followed by the label it jumps to; in particular a jump followed by a
/// label of another name is kept.
pub proof fn lemma_noop_jumps_only(s: Seq<IrInstr>)
    requires
        forall|k: int| 0 <= k && k + 1 < s.len() ==> !jumps_to_label(#[trigger] s[k], s[k + 1]),
    ensures
        without_noop_jumps(s) == s,
{
    lemma_no_noop_prefix(s, s.len() as int);
    assert(s.take(s.len() as int) =~= s);
}

/// Law: a jump directly followed by the label it jumps to is removed, and
/// the instructions around it are kept in order.
pub proof fn lemma_noop_jump_removed(s: Seq<IrInstr>, k: int)
    requires
        0 <= k,
        k + 1 < s.len(),
        jumps_to_label(s[k], s[k + 1]),
    ensures
        without_noop_jumps_upto(s, k + 1) == without_noop_jumps_upto(s, k),
        without_noop_jumps_upto(s, k + 2) == without_noop_jumps_upto(s, k).push(s[k + 1]),
{
    assert(is_noop_jump_at(s, k));
    assert(!(s[k + 1] is Jmp));
    assert(!is_noop_jump_at(s, k + 1));
}

/// The register a load instruction writes.
pub open spec fn load_target(i: IrInstr) -> Option<u16> {
    match i {
        IrInstr::LoadQ { dst, .. } => Some(dst),
        IrInstr::LoadBool { dst, .. } => Some(dst),
        IrInstr::LoadI32 { dst, .. } => Some(dst),
        IrInstr::LoadF64 { dst, .. } => Some(dst),
        IrInstr::LoadFx { dst, .. } => Some(dst),
        IrInstr::LoadVar { dst, .. } => Some(dst),
        _ => None,
    }
}

proof fn lemma_no_redundant_prefix(s: Seq<IrInstr>, n: int)
    requires
        0 <= n <= s.len(),
        forall|k: int|
            0 <= k && k + 1 < s.len() && (#[trigger] load_target(s[k])) is Some ==> load_target(s[k + 1])
                != load_target(s[k]),
    ensures
        without_redundant_loads_upto(s, n) == s.take(n),
    decreases n,
{
    if n > 0 {
        lemma_no_redundant_prefix(s, n - 1);
        if n < s.len() && load_target(s[n - 1]) is Some {
            assert(load_target(s[n]) != load_target(s[n - 1]));
        }
        assert(!is_redundant_load_at(s, n - 1));
        assert(s.take(n - 1).push(s[n - 1]) =~= s.take(n));
    }
}

/// Law: removing redundant loads leaves code alone in which no load is
/// directly followed by another load into the same register.
pub proof fn lemma_redundant_loads_only(s: Seq<IrInstr>)
    requires
        forall|k: int|
            0 <= k && k + 1 < s.len() && (#[trigger] load_target(s[k])) is Some ==> load_target(s[k + 1])
                != load_target(s[k]),
    ensures
        without_redundant_loads(s) == s,
{
    lemma_no_redundant_prefix(s, s.len() as int);
    assert(s.take(s.len() as int) =~= s);
}

/// Whether `x` ends straight-line code: a return or an unconditional jump.
pub open spec fn ends_block(x: IrInstr) -> bool {
    x is Ret || x is Jmp
}

proof fn lemma_reachable_prefix(s: Seq<IrInstr>, n: int)
    requires
        0 <= n <= s.len(),
        forall|k: int| 0 <= k && k + 1 < s.len() && ends_block(#[trigger] s[k]) ==> s[k + 1] is Label,
    ensures
        unreachable_scan(s.take(n)) == (s.take(n), n > 0 && ends_block(s[n - 1])),
    decreases n,
{
    if n > 0 {
        lemma_reachable_prefix(s, n - 1);
        let t = s.take(n);
        assert(t.drop_last() =~= s.take(n - 1));
        assert(t.last() == s[n - 1]);
        if n > 1 && ends_block(s[n - 2]) {
            assert(s[n - 1] is Label);
        }
        assert(s.take(n - 1).push(s[n - 1]) =~= t);
    }
}

/// Law: stripping unreachable code leaves code alone in which every return
/// or unconditional jump is the last instruction or followed by a label.
pub proof fn lemma_unreachable_only(s: Seq<IrInstr>)
    requires
        forall|k: int| 0 <= k && k + 1 < s.len() && ends_block(#[trigger] s[k]) ==> s[k + 1] is Label,
    ensures
        strip_unreachable(s) == s,
{
    lemma_reachable_prefix(s, s.len() as int);
    assert(s.take(s.len() as int) =~= s);
}

/// Law: code after a return or an unconditional jump, up to the next label,
/// is dropped: such an instruction followed by a non-label makes the
/// stripped code shorter.
pub proof fn lemma_dead_code_dropped(s: Seq<IrInstr>, k: int)
    requires
        0 <= k,
        k + 1 < s.len(),
        ends_block(s[k]),
        !(s[k + 1] is Label),
    ensures
        strip_unreachable(s).len() < s.len(),
{
    lemma_scan_step_len(s, k + 2);
    lemma_scan_dead_flag(s, k + 1);
    lemma_scan_bound(s, k + 1);
    lemma_scan_growth(s, k + 2, s.len() as int);
    assert(s.take(s.len() as int) =~= s);
}

proof fn lemma_scan_bound(s: Seq<IrInstr>, n: int)
    requires
        0 <= n <= s.len(),
    ensures
        unreachable_scan(s.take(n)).0.len() <= n,
    decreases n,
{
    if n > 0 {
        lemma_scan_bound(s, n - 1);
        lemma_scan_step_len(s, n);
    }
}

proof fn lemma_scan_growth(s: Seq<IrInstr>, n: int, m: int)
    requires
        0 <= n <= m <= s.len(),
    ensures
        unreachable_scan(s.take(m)).0.len() <= unreachable_scan(s.take(n)).0.len() + (m - n),
    decreases m - n,
{
    if n < m {
        lemma_scan_growth(s, n, m - 1);
        lemma_scan_step_len(s, m);
    }
}

proof fn lemma_scan_step_len(s: Seq<IrInstr>, n: int)
    requires
        1 <= n <= s.len(),
    ensures
        unreachable_scan(s.take(n)).0.len() <= unreachable_scan(s.take(n - 1)).0.len() + 1,
        unreachable_scan(s.take(n - 1)).1 && !(s[n - 1] is Label) ==> unreachable_scan(s.take(n)).0.len()
            == unreachable_scan(s.take(n - 1)).0.len(),
{
    let t = s.take(n);
    assert(t.drop_last() =~= s.take(n - 1));
    assert(t.last() == s[n - 1]);
}

proof fn lemma_scan_dead_flag(s: Seq<IrInstr>, n: int)
    requires
        1 <= n <= s.len(),
    ensures
        ends_block(s[n - 1]) ==> unreachable_scan(s.take(n)).1,
{
    let t = s.take(n);
    assert(t.drop_last() =~= s.take(n - 1));
    assert(t.last() == s[n - 1]);
}

proof fn lemma_no_repeat_label_prefix(s: Seq<IrInstr>, n: int)
    requires
        0 <= n <= s.len(),
        forall|k: int|
            0 <= k && k + 1 < s.len() && (#[trigger] s[k]) is Label ==> !(s[k + 1] matches IrInstr::Label { name }
                && Some(name@) == label_name(s[k])),
    ensures
        dedup_labels(s.take(n)) == s.take(n),
    decreases n,
{
    if n > 0 {
        lemma_no_repeat_label_prefix(s, n - 1);
        let t = s.take(n);
        assert(t.drop_last() =~= s.take(n - 1));
        assert(t.last() == s[n - 1]);
        if n > 1 && s[n - 2] is Label {
            assert(s.take(n - 1).last() == s[n - 2]);
        }
        assert(s.take(n - 1).push(s[n - 1]) =~= t);
    }
}

/// Law: dropping repeated labels leaves code alone in which no label is
/// directly followed by a label of the same name.
pub proof fn lemma_repeated_labels_only(s: Seq<IrInstr>)
    requires
        forall|k: int|
            0 <= k && k + 1 < s.len() && (#[trigger] s[k]) is Label ==> !(s[k + 1] matches IrInstr::Label { name }
                && Some(name@) == label_name(s[k])),
    ensures
        dedup_labels(s) == s,
{
    lemma_no_repeat_label_prefix(s, s.len() as int);
    assert(s.take(s.len() as int) =~= s);
}

} // verus!
