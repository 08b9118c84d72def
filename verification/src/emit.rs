//! The emitter: SemCode bytes from IR functions. Each function gets a table
//! of the strings its instructions name, an optional debug table, and its
//! instruction stream, in which labels become byte offsets.
//!
//! The byte format has opcodes for the core instructions only; an IR
//! instruction without an opcode (text, records, sum types, fixed-point
//! arithmetic, state, events and the clock) makes the emission fail.
use crate::bytecode::{encode, encode_instr, instr_wf, is_binary_op, is_unary_op, Instr};
use crate::ir::{IrError, IrFunction, IrInstr};
use crate::quad::{quad_bits, quad_to_u8};
use crate::runtime_core::distinct_names;
use crate::semcode_format::{le_bytes_u16, le_bytes_u32, magic_bytes, write_u16_le, write_u32_le, Opcode};
use vstd::prelude::*;
use vstd::utf8::encode_utf8;

verus! {

/// The first index from `k` on at which `t` holds `s`.
pub open spec fn index_from(t: Seq<Seq<char>>, s: Seq<char>, k: int) -> Option<int>
    decreases t.len() - k,
{
    if k < 0 || k >= t.len() {
        None
    } else if t[k] == s {
        Some(k)
    } else {
        index_from(t, s, k + 1)
    }
}

/// The table after entering `s`: unchanged when `s` is there, longer by
/// `s` when not; `None` when a new entry would need an index past `u16`.
pub open spec fn enter_string(t: Seq<Seq<char>>, s: Seq<char>) -> Option<Seq<Seq<char>>> {
    if index_from(t, s, 0) is Some {
        Some(t)
    } else if t.len() > u16::MAX {
        None
    } else {
        Some(t.push(s))
    }
}

/// The strings instruction `i` enters in its function's table, in order.
pub open spec fn ir_strings(i: IrInstr) -> Seq<Seq<char>> {
    match i {
        IrInstr::LoadText { val, .. } => seq![val@],
        IrInstr::LoadVar { name, .. } => seq![name@],
        IrInstr::StoreVar { name, .. } => seq![name@],
        IrInstr::MakeRecord { name, .. } => seq![name@],
        IrInstr::MakeAdt { adt_name, variant_name, .. } => seq![adt_name@, variant_name@],
        IrInstr::RecordGet { record_name, .. } => seq![record_name@],
        IrInstr::AdtTag { adt_name, .. } => seq![adt_name@],
        IrInstr::AdtGet { adt_name, .. } => seq![adt_name@],
        IrInstr::Call { name, .. } => seq![name@],
        IrInstr::PulseEmit { signal } => seq![signal@],
        IrInstr::StateQuery { key, .. } => seq![key@],
        IrInstr::StateUpdate { key, .. } => seq![key@],
        IrInstr::EventPost { signal } => seq![signal@],
        _ => Seq::empty(),
    }
}

/// The table after entering each of `xs`, in order.
pub open spec fn enter_all(t: Seq<Seq<char>>, xs: Seq<Seq<char>>) -> Option<Seq<Seq<char>>>
    decreases xs.len(),
{
    if xs.len() == 0 {
        Some(t)
    } else {
        match enter_all(t, xs.drop_last()) {
            None => None,
            Some(t2) => enter_string(t2, xs.last()),
        }
    }
}

/// The string table of a function: what its instructions name, each once,
/// in order of first mention.
pub open spec fn string_table(instrs: Seq<IrInstr>) -> Option<Seq<Seq<char>>>
    decreases instrs.len(),
{
    if instrs.len() == 0 {
        Some(Seq::empty())
    } else {
        match string_table(instrs.drop_last()) {
            None => None,
            Some(t) => enter_all(t, ir_strings(instrs.last())),
        }
    }
}

/// Strings, each with its index.
pub struct StringInterner {
    by_id: Vec<String>,
}

impl View for StringInterner {
    type V = Seq<Seq<char>>;

    closed spec fn view(&self) -> Seq<Seq<char>> {
        Seq::new(self.by_id@.len(), |k: int| self.by_id@[k]@)
    }
}

proof fn lemma_index_from(t: Seq<Seq<char>>, s: Seq<char>, k: int)
    requires
        0 <= k,
    ensures
        match index_from(t, s, k) {
            Some(i) => k <= i < t.len() && t[i] == s,
            None => forall|j: int| k <= j < t.len() ==> t[j] != s,
        },
    decreases t.len() - k,
{
    if k < t.len() && t[k] != s {
        lemma_index_from(t, s, k + 1);
    }
}

/// In a table without repeats, entry `k` is found at `k`: the indices the
/// interner hands out are dense and name one string each.
pub proof fn lemma_interner_ids_dense(t: Seq<Seq<char>>)
    requires
        distinct_names(t),
    ensures
        forall|k: int| 0 <= k < t.len() ==> #[trigger] index_from(t, t[k], 0) == Some(k),
{
    assert forall|k: int| 0 <= k < t.len() implies #[trigger] index_from(t, t[k], 0) == Some(k) by {
        lemma_index_from(t, t[k], 0);
        if index_from(t, t[k], 0) != Some(k) {
            if index_from(t, t[k], 0) is None {
                assert(t[k] != t[k]);
            } else {
                let i = index_from(t, t[k], 0)->Some_0;
                assert(t[i] == t[k]);
            }
        }
    }
}

/// Law: entering `s` into a table without repeats keeps the table and the
/// index of a string already there; appends a new string at index `t.len()`
/// while there are at most 65535 strings; and otherwise overflows. The table
/// stays without repeats.
pub proof fn lemma_enter_string_cases(t: Seq<Seq<char>>, s: Seq<char>)
    requires
        distinct_names(t),
    ensures
        t.contains(s) ==> (enter_string(t, s) == Some(t) && (index_from(t, s, 0) matches Some(k) && t[k] == s)),
        !t.contains(s) && t.len() <= u16::MAX ==> enter_string(t, s) == Some(t.push(s)) && index_from(
            t.push(s),
            s,
            0,
        ) == Some(t.len() as int) && distinct_names(t.push(s)),
        !t.contains(s) && t.len() > u16::MAX ==> enter_string(t, s) is None,
{
    lemma_index_from(t, s, 0);
    if t.contains(s) {
        let k = choose|k: int| 0 <= k < t.len() && t[k] == s;
        assert(t[k] == s);
    } else {
        assert forall|j: int| 0 <= j < t.len() implies t[j] != s by {
            if t[j] == s {
                assert(t.contains(s));
            }
        }
        let u = t.push(s);
        lemma_index_from(u, s, 0);
        assert(u[t.len() as int] == s);
        if index_from(u, s, 0) != Some(t.len() as int) {
            let i = index_from(u, s, 0)->Some_0;
            assert(u[i] == t[i]);
        }
        assert forall|i: int, j: int| 0 <= i < j < u.len() implies u[i] != u[j] by {
            assert(u[i] == t[i]);
        }
    }
}

impl StringInterner {
    #[verifier::type_invariant]
    spec fn small(&self) -> bool {
        &&& self.by_id@.len() <= u16::MAX + 1
        &&& distinct_names(self@)
    }

    /// An empty table.
    pub fn new() -> (t: Self)
        ensures
            t@ == Seq::<Seq<char>>::empty(),
            distinct_names(t@),
    {
        let t = StringInterner { by_id: Vec::new() };
        assert(t@ =~= Seq::<Seq<char>>::empty());
        t
    }

    fn find(&self, s: &str) -> (r: Option<u16>)
        ensures
            match index_from(self@, s@, 0) {
                Some(k) => r == Some(k as u16),
                None => r is None,
            },
    {
        proof {
            use_type_invariant(self);
        }
        let key = s.to_string();
        let mut k: usize = 0;
        while k < self.by_id.len()
            invariant
                key@ == s@,
                k <= self.by_id@.len(),
                self.by_id@.len() <= u16::MAX + 1,
                index_from(self@, s@, 0) == index_from(self@, s@, k as int),
            decreases self.by_id@.len() - k,
        {
            if self.by_id[k].eq(&key) {
                return Some(k as u16);
            }
            k = k + 1;
        }
        None
    }

    /// Enters `s`, which keeps its index when it is there already.
    pub fn id(&mut self, s: &str) -> (r: Result<u16, IrError>)
        ensures
            match enter_string(old(self)@, s@) {
                Some(t) => final(self)@ == t && r == Ok::<u16, IrError>(index_from(t, s@, 0)->Some_0 as u16),
                None => final(self)@ == old(self)@ && (r matches Err(e) && e.pos == 0 && e.message@
                    == "string table overflow"@),
            },
            distinct_names(old(self)@),
            distinct_names(final(self)@),
    {
        proof {
            use_type_invariant(&*self);
        }
        match self.find(s) {
            Some(k) => Ok(k),
            None => {
                let n = self.by_id.len();
                if n > 65535 {
                    return Err(IrError { pos: 0, message: String::from_str("string table overflow") });
                }
                let ghost before = self@;
                let mut v: Vec<String> = Vec::new();
                std::mem::swap(&mut v, &mut self.by_id);
                v.push(s.to_string());
                proof {
                    let nv = Seq::new(v@.len(), |k: int| v@[k]@);
                    assert(nv =~= before.push(s@));
                    lemma_index_from(before, s@, 0);
                    assert forall|i: int, j: int| 0 <= i < j < nv.len() implies nv[i] != nv[j] by {
                        if j < n {
                            assert(nv[i] == before[i] && nv[j] == before[j]);
                        } else {
                            assert(nv[i] == before[i]);
                        }
                    }
                    assert(distinct_names(nv));
                }
                self.by_id = v;
                proof {
                    assert(self@ =~= before.push(s@));
                    lemma_index_from(before, s@, 0);
                    assert(self@[n as int] == s@);
                    assert forall|j: int| 0 <= j < n implies self@[j] != s@ by {
                        assert(self@[j] == before[j]);
                    }

                    lemma_index_from(self@, s@, 0);
                    if index_from(self@, s@, 0) != Some(n as int) {
                        let i = index_from(self@, s@, 0)->Some_0;
                        assert(self@[i] == s@);
                    }
                }
                Ok(n as u16)
            },
        }
    }

    /// The index of `s`, which must have been entered.
    pub fn lookup(&self, s: &str) -> (r: Result<u16, IrError>)
        ensures
            match index_from(self@, s@, 0) {
                Some(k) => r == Ok::<u16, IrError>(k as u16),
                None => r matches Err(e) && e.pos == 0 && e.message@ == "string '"@ + s@ + "' not interned"@,
            },
    {
        match self.find(s) {
            Some(k) => Ok(k),
            None => {
                let mut m = String::from_str("string '");
                m.append(s);
                m.append("' not interned");
                Err(IrError { pos: 0, message: m })
            },
        }
    }

    /// Appends the table: its length, then each string's byte length and
    /// its UTF-8 bytes.
    pub fn emit_table(&self, out: &mut Vec<u8>) -> (r: Result<(), IrError>)
        ensures
            match table_bytes(self@) {
                Ok(b) => r is Ok && final(out)@ == old(out)@ + b,
                Err(m) => r matches Err(e) && e.pos == 0 && e.message@ == m,
            },
    {
        let n = self.by_id.len();
        if n > 65535 {
            return Err(IrError { pos: 0, message: String::from_str("string table too large") });
        }
        let ghost start = out@;
        write_u16_le(out, n as u16);
        let ghost t = self@;
        let mut k: usize = 0;
        assert(t.take(0) =~= Seq::<Seq<char>>::empty());
        while k < n
            invariant
                n == self.by_id@.len(),
                n <= u16::MAX,
                t == self@,
                k <= n,
                entries_bytes(t.take(k as int)) is Ok,
                out@ == start + le_bytes_u16(n as u16) + entries_bytes(t.take(k as int))->Ok_0,
            decreases n - k,
        {
            let b = self.by_id[k].as_str().as_bytes();
            let ghost tk = t.take(k as int + 1);
            assert(tk.drop_last() =~= t.take(k as int));
            assert(tk.last() == self.by_id@[k as int]@);
            assert(b@ == encode_utf8(tk.last()));
            if b.len() > 65535 {
                proof {
                    assert(entries_bytes(tk) is Err);
                    lemma_entries_prefix_err(t, k as int + 1);
                    assert(table_bytes(self@) == Err::<Seq<u8>, Seq<char>>("string too long"@));
                }
                return Err(IrError { pos: 0, message: String::from_str("string too long") });
            }
            let ghost before = out@;
            write_u16_le(out, b.len() as u16);
            let mut j: usize = 0;
            while j < b.len()
                invariant
                    j <= b@.len(),
                    out@ == before + le_bytes_u16(b@.len() as u16) + b@.take(j as int),
                decreases b@.len() - j,
            {
                out.push(b[j]);
                assert(b@.take(j as int + 1) =~= b@.take(j as int).push(b@[j as int]));
                j = j + 1;
            }
            assert(b@.take(b@.len() as int) =~= b@);
            assert(out@ =~= start + le_bytes_u16(n as u16) + entries_bytes(tk)->Ok_0);
            k = k + 1;
        }
        assert(t.take(n as int) =~= t);
        Ok(())
    }
}

/// The entries of a string table: each string's byte length and its UTF-8
/// bytes; a string longer than `u16` bytes is an error.
pub open spec fn entries_bytes(t: Seq<Seq<char>>) -> Result<Seq<u8>, Seq<char>>
    decreases t.len(),
{
    if t.len() == 0 {
        Ok(Seq::empty())
    } else {
        match entries_bytes(t.drop_last()) {
            Err(m) => Err(m),
            Ok(b) => {
                let u = encode_utf8(t.last());
                if u.len() > u16::MAX {
                    Err("string too long"@)
                } else {
                    Ok(b + le_bytes_u16(u.len() as u16) + u)
                }
            },
        }
    }
}

/// A string table as bytes: its length, then its entries.
pub open spec fn table_bytes(t: Seq<Seq<char>>) -> Result<Seq<u8>, Seq<char>> {
    if t.len() > u16::MAX {
        Err("string table too large"@)
    } else {
        match entries_bytes(t) {
            Err(m) => Err(m),
            Ok(b) => Ok(le_bytes_u16(t.len() as u16) + b),
        }
    }
}

proof fn lemma_entries_prefix_err(t: Seq<Seq<char>>, m: int)
    requires
        0 <= m <= t.len(),
        entries_bytes(t.take(m)) is Err,
    ensures
        entries_bytes(t) == entries_bytes(t.take(m)),
    decreases t.len(),
{
    if t.len() == m {
        assert(t.take(m) =~= t);
    } else {
        assert(t.drop_last().take(m) =~= t.take(m));
        lemma_entries_prefix_err(t.drop_last(), m);
    }
}

/// Labels with their offsets; a later entry for a name replaces an earlier
/// one.
pub open spec fn label_map(es: Seq<(String, u32)>) -> Map<Seq<char>, u32>
    decreases es.len(),
{
    if es.len() == 0 {
        Map::empty()
    } else {
        label_map(es.drop_last()).insert(es.last().0@, es.last().1)
    }
}

/// Labels with their offsets in the instruction stream.
pub struct LabelTable {
    entries: Vec<(String, u32)>,
}

impl View for LabelTable {
    type V = Map<Seq<char>, u32>;

    closed spec fn view(&self) -> Map<Seq<char>, u32> {
        label_map(self.entries@)
    }
}

proof fn lemma_label_map_skip(es: Seq<(String, u32)>, k: int, name: Seq<char>)
    requires
        0 <= k <= es.len(),
        forall|j: int| k <= j < es.len() ==> (#[trigger] es[j]).0@ != name,
    ensures
        label_map(es).contains_key(name) == label_map(es.take(k)).contains_key(name),
        label_map(es).contains_key(name) ==> label_map(es)[name] == label_map(es.take(k))[name],
    decreases es.len(),
{
    if es.len() == k {
        assert(es.take(k) =~= es);
    } else {
        assert(es.drop_last().take(k) =~= es.take(k));
        assert(es.last() == es[es.len() - 1]);
        lemma_label_map_skip(es.drop_last(), k, name);
    }
}

impl LabelTable {
    /// No labels.
    pub fn new() -> (t: Self)
        ensures
            t@ == Map::<Seq<char>, u32>::empty(),
    {
        LabelTable { entries: Vec::new() }
    }

    /// Sets the offset of `name`.
    pub fn insert(&mut self, name: &String, pc: u32)
        ensures
            final(self)@ == old(self)@.insert(name@, pc),
    {
        let ghost before = self.entries@;
        self.entries.push((name.clone(), pc));
        assert(self.entries@.drop_last() =~= before);
    }

    /// The offset of `name`, if it is a label.
    pub fn get(&self, name: &String) -> (r: Option<u32>)
        ensures
            r == (if self@.contains_key(name@) {
                Some(self@[name@])
            } else {
                None::<u32>
            }),
    {
        let es = &self.entries;
        let mut k: usize = es.len();
        while k > 0
            invariant
                es@ == self.entries@,
                k <= es@.len(),
                forall|j: int| k <= j < es@.len() ==> (#[trigger] es@[j]).0@ != name@,
            decreases k,
        {
            if es[k - 1].0.eq(name) {
                proof {
                    lemma_label_map_skip(es@, k as int, name@);
                    let tk = es@.take(k as int);
                    assert(tk.drop_last() =~= es@.take(k as int - 1));
                    assert(tk.last() == es@[k - 1]);
                    assert(es@[k - 1].0@ == name@);
                    assert(label_map(tk) == label_map(tk.drop_last()).insert(tk.last().0@, tk.last().1));
                    assert(label_map(tk).contains_key(name@));
                    assert(label_map(tk)[name@] == es@[k - 1].1);
                }
                return Some(es[k - 1].1);
            }
            k = k - 1;
        }
        proof {
            lemma_label_map_skip(es@, 0, name@);
            assert(es@.take(0) =~= Seq::<(String, u32)>::empty());
        }
        None
    }
}

/// The size of `5 + 2 * n` bytes as a `u32`, wrapping past its range.
pub open spec fn wrapped_size(base: nat, n: nat) -> u32 {
    ((base + 2 * n) % 0x1_0000_0000) as u32
}

/// The encoded size of an instruction; a label has none.
pub open spec fn ir_size(i: IrInstr) -> Option<u32> {
    match i {
        IrInstr::Label { .. } => None,
        IrInstr::LoadQ { .. } | IrInstr::LoadBool { .. } => Some(4),
        IrInstr::LoadI32 { .. } | IrInstr::LoadU32 { .. } | IrInstr::LoadFx { .. } => Some(7),
        IrInstr::LoadF64 { .. } => Some(11),
        IrInstr::LoadText { .. } => Some(5),
        IrInstr::MakeTuple { items, .. } => Some(wrapped_size(5, items@.len())),
        IrInstr::MakeRecord { items, .. } => Some(wrapped_size(7, items@.len())),
        IrInstr::MakeAdt { items, .. } => Some(wrapped_size(11, items@.len())),
        IrInstr::AdtTag { .. } => Some(7),
        IrInstr::AdtGet { .. } | IrInstr::RecordGet { .. } => Some(9),
        IrInstr::TupleGet { .. } => Some(7),
        IrInstr::LoadVar { .. } | IrInstr::StoreVar { .. } => Some(5),
        IrInstr::QNot { .. } | IrInstr::BoolNot { .. } => Some(5),
        IrInstr::Jmp { .. } => Some(5),
        IrInstr::JmpIf { .. } => Some(7),
        IrInstr::Assert { .. } => Some(3),
        IrInstr::Call { args, .. } => Some(wrapped_size(8, args@.len())),
        IrInstr::GateRead { .. } | IrInstr::GateWrite { .. } => Some(7),
        IrInstr::PulseEmit { .. } | IrInstr::EventPost { .. } | IrInstr::ClockRead { .. } => Some(3),
        IrInstr::StateQuery { .. } | IrInstr::StateUpdate { .. } => Some(5),
        IrInstr::Ret { src } => Some(
            if src is Some {
                4
            } else {
                2
            },
        ),
        _ => Some(7),
    }
}

proof fn lemma_wrapped_size(base: nat, n: nat)
    ensures
        (base + 2 * (n % 0x1_0000_0000)) % 0x1_0000_0000 == (base + 2 * n) % 0x1_0000_0000,
{
    let m: int = 0x1_0000_0000;
    vstd::arithmetic::div_mod::lemma_add_mod_noop_right(base as int, 2 * (n as int % m), m);
    vstd::arithmetic::div_mod::lemma_mul_mod_noop_right(2, n as int, m);
    vstd::arithmetic::div_mod::lemma_add_mod_noop_right(base as int, 2 * n as int, m);
}

fn size_with_list(base: u64, n: usize) -> (s: u32)
    requires
        base < 16,
    ensures
        s == wrapped_size(base as nat, n as nat),
{
    let r: u64 = n as u64 % 0x1_0000_0000;
    proof {
        lemma_wrapped_size(base as nat, n as nat);
    }
    ((base + 2 * r) % 0x1_0000_0000) as u32
}

/// The encoded size of an instruction; a label has none.
pub fn encoded_size(i: &IrInstr) -> (r: Option<u32>)
    ensures
        r == ir_size(*i),
{
    match i {
        IrInstr::Label { .. } => None,
        IrInstr::LoadQ { .. } | IrInstr::LoadBool { .. } => Some(4),
        IrInstr::LoadI32 { .. } | IrInstr::LoadU32 { .. } | IrInstr::LoadFx { .. } => Some(7),
        IrInstr::LoadF64 { .. } => Some(11),
        IrInstr::LoadText { .. } => Some(5),
        IrInstr::MakeTuple { items, .. } => Some(size_with_list(5, items.len())),
        IrInstr::MakeRecord { items, .. } => Some(size_with_list(7, items.len())),
        IrInstr::MakeAdt { items, .. } => Some(size_with_list(11, items.len())),
        IrInstr::AdtTag { .. } => Some(7),
        IrInstr::AdtGet { .. } | IrInstr::RecordGet { .. } => Some(9),
        IrInstr::TupleGet { .. } => Some(7),
        IrInstr::LoadVar { .. } | IrInstr::StoreVar { .. } => Some(5),
        IrInstr::QNot { .. } | IrInstr::BoolNot { .. } => Some(5),
        IrInstr::Jmp { .. } => Some(5),
        IrInstr::JmpIf { .. } => Some(7),
        IrInstr::Assert { .. } => Some(3),
        IrInstr::Call { args, .. } => Some(size_with_list(8, args.len())),
        IrInstr::GateRead { .. } | IrInstr::GateWrite { .. } => Some(7),
        IrInstr::PulseEmit { .. } | IrInstr::EventPost { .. } | IrInstr::ClockRead { .. } => Some(3),
        IrInstr::StateQuery { .. } | IrInstr::StateUpdate { .. } => Some(5),
        IrInstr::Ret { src } => Some(
            if src.is_some() {
                4
            } else {
                2
            },
        ),
        _ => Some(7),
    }
}

/// The index of `s` in the table, or the error for a string never entered.
pub open spec fn string_id(t: Seq<Seq<char>>, s: Seq<char>) -> Result<u16, Seq<char>> {
    match index_from(t, s, 0) {
        Some(k) => Ok(k as u16),
        None => Err("string '"@ + s + "' not interned"@),
    }
}

/// The offset of label `l`, or the error for an unknown one.
pub open spec fn label_addr(labels: Map<Seq<char>, u32>, l: Seq<char>) -> Result<u32, Seq<char>> {
    if labels.contains_key(l) {
        Ok(labels[l])
    } else {
        Err("unknown label '"@ + l + "'"@)
    }
}

/// The message for an instruction the byte format has no opcode for.
pub open spec fn no_opcode_message() -> Seq<char> {
    "instruction has no opcode in this format"@
}

/// The bytecode instruction an IR instruction becomes, with its labels
/// resolved to offsets and its strings to table indices.
pub open spec fn ir_code(i: IrInstr, labels: Map<Seq<char>, u32>, t: Seq<Seq<char>>) -> Result<Instr, Seq<char>> {
    let bin = |op: Opcode, dst: u16, lhs: u16, rhs: u16| Ok(Instr::Binary { op, dst, lhs, rhs });
    match i {
        IrInstr::LoadQ { dst, val } => Ok(Instr::LoadQ { dst, val: quad_bits(val) }),
        IrInstr::LoadBool { dst, val } => Ok(
            Instr::LoadBool {
                dst,
                val: if val {
                    1
                } else {
                    0
                },
            },
        ),
        IrInstr::LoadI32 { dst, val } => Ok(Instr::LoadI32 { dst, val }),
        IrInstr::LoadU32 { dst, val } => Ok(Instr::LoadU32 { dst, val }),
        IrInstr::LoadF64 { dst, val } => Ok(Instr::LoadF64 { dst, bits: val }),
        IrInstr::LoadFx { dst, val } => Ok(Instr::LoadFx { dst, val }),
        IrInstr::MakeTuple { dst, items } => if items@.len() > u16::MAX {
            Err("tuple literal has too many elements"@)
        } else {
            Ok(Instr::MakeTuple { dst, items })
        },
        IrInstr::TupleGet { dst, src, index } => Ok(Instr::TupleGet { dst, src, index }),
        IrInstr::LoadVar { dst, name } => match string_id(t, name@) {
            Ok(sid) => Ok(Instr::LoadVar { dst, sid }),
            Err(m) => Err(m),
        },
        IrInstr::StoreVar { name, src } => match string_id(t, name@) {
            Ok(sid) => Ok(Instr::StoreVar { sid, src }),
            Err(m) => Err(m),
        },
        IrInstr::QAnd { dst, lhs, rhs } => bin(Opcode::QAnd, dst, lhs, rhs),
        IrInstr::QOr { dst, lhs, rhs } => bin(Opcode::QOr, dst, lhs, rhs),
        IrInstr::QImpl { dst, lhs, rhs } => bin(Opcode::QImpl, dst, lhs, rhs),
        IrInstr::BoolAnd { dst, lhs, rhs } => bin(Opcode::BoolAnd, dst, lhs, rhs),
        IrInstr::BoolOr { dst, lhs, rhs } => bin(Opcode::BoolOr, dst, lhs, rhs),
        IrInstr::CmpEq { dst, lhs, rhs } => bin(Opcode::CmpEq, dst, lhs, rhs),
        IrInstr::CmpNe { dst, lhs, rhs } => bin(Opcode::CmpNe, dst, lhs, rhs),
        IrInstr::CmpI32Lt { dst, lhs, rhs } => bin(Opcode::CmpI32Lt, dst, lhs, rhs),
        IrInstr::CmpI32Le { dst, lhs, rhs } => bin(Opcode::CmpI32Le, dst, lhs, rhs),
        IrInstr::AddI32 { dst, lhs, rhs } => bin(Opcode::AddI32, dst, lhs, rhs),
        IrInstr::AddF64 { dst, lhs, rhs } => bin(Opcode::AddF64, dst, lhs, rhs),
        IrInstr::SubF64 { dst, lhs, rhs } => bin(Opcode::SubF64, dst, lhs, rhs),
        IrInstr::MulF64 { dst, lhs, rhs } => bin(Opcode::MulF64, dst, lhs, rhs),
        IrInstr::DivF64 { dst, lhs, rhs } => bin(Opcode::DivF64, dst, lhs, rhs),
        IrInstr::QNot { dst, src } => Ok(Instr::Unary { op: Opcode::QNot, dst, src }),
        IrInstr::BoolNot { dst, src } => Ok(Instr::Unary { op: Opcode::BoolNot, dst, src }),
        IrInstr::Jmp { label } => match label_addr(labels, label@) {
            Ok(addr) => Ok(Instr::Jmp { addr }),
            Err(m) => Err(m),
        },
        IrInstr::JmpIf { cond, label } => match label_addr(labels, label@) {
            Ok(addr) => Ok(Instr::JmpIf { cond, addr }),
            Err(m) => Err(m),
        },
        IrInstr::Assert { cond } => Ok(Instr::Assert { cond }),
        IrInstr::Call { dst, name, args } => match string_id(t, name@) {
            Err(m) => Err(m),
            Ok(sid) => if args@.len() > u16::MAX {
                Err("too many call args"@)
            } else {
                Ok(
                    Instr::Call {
                        flag: if dst is Some {
                            1
                        } else {
                            0
                        },
                        dst: match dst {
                            Some(r) => r,
                            None => 0,
                        },
                        sid,
                        args,
                    },
                )
            },
        },
        IrInstr::GateRead { dst, device_id, port } => Ok(Instr::GateRead { dst, device_id, port }),
        IrInstr::GateWrite { device_id, port, src } => Ok(Instr::GateWrite { device_id, port, src }),
        IrInstr::PulseEmit { signal } => match string_id(t, signal@) {
            Ok(sid) => Ok(Instr::PulseEmit { sid }),
            Err(m) => Err(m),
        },
        IrInstr::Ret { src } => Ok(
            match src {
                Some(r) => Instr::Ret { flag: 1, src: r },
                None => Instr::Ret { flag: 0, src: 0 },
            },
        ),
        _ => Err(no_opcode_message()),
    }
}

/// Whether the byte format has an opcode for IR instruction `i`: every
/// instruction but labels and those of the later format revisions (text,
/// fixed-point arithmetic, records, ADTs, state, events and the clock).
pub open spec fn has_format_opcode(i: IrInstr) -> bool {
    !(i is Label) && !(i is LoadText) && !(i is AddFx) && !(i is SubFx) && !(i is MulFx) && !(i is DivFx)
        && !(i is MakeRecord) && !(i is MakeAdt) && !(i is AdtTag) && !(i is AdtGet) && !(i is RecordGet)
        && !(i is StateQuery) && !(i is StateUpdate) && !(i is EventPost) && !(i is ClockRead)
}

/// The labels instruction `i` jumps to.
pub open spec fn ir_labels(i: IrInstr) -> Seq<Seq<char>> {
    match i {
        IrInstr::Jmp { label } => seq![label@],
        IrInstr::JmpIf { label, .. } => seq![label@],
        _ => Seq::empty(),
    }
}

/// Everything `i` refers to can be resolved: its strings are in `t`, its
/// labels in `labels`, and its item and argument lists fit a `u16` count.
pub open spec fn operands_resolvable(i: IrInstr, labels: Map<Seq<char>, u32>, t: Seq<Seq<char>>) -> bool {
    &&& forall|k: int| 0 <= k < ir_strings(i).len() ==> (#[trigger] index_from(t, ir_strings(i)[k], 0)) is Some
    &&& forall|k: int| 0 <= k < ir_labels(i).len() ==> labels.contains_key(#[trigger] ir_labels(i)[k])
    &&& (i matches IrInstr::MakeTuple { items, .. } ==> items@.len() <= u16::MAX)
    &&& (i matches IrInstr::Call { args, .. } ==> args@.len() <= u16::MAX)
}

/// The bytes an IR instruction is emitted as: none for a label.
pub open spec fn emit_bytes(i: IrInstr, labels: Map<Seq<char>, u32>, t: Seq<Seq<char>>) -> Result<Seq<u8>, Seq<char>> {
    if i is Label {
        Ok(Seq::empty())
    } else {
        match ir_code(i, labels, t) {
            Ok(j) => Ok(encode(j)),
            Err(m) => Err(m),
        }
    }
}

fn emit_3reg(op: Opcode, dst: u16, lhs: u16, rhs: u16, out: &mut Vec<u8>)
    requires
        is_binary_op(op),
    ensures
        final(out)@ == old(out)@ + encode(Instr::Binary { op, dst, lhs, rhs }),
{
    out.push(op.byte());
    write_u16_le(out, dst);
    write_u16_le(out, lhs);
    write_u16_le(out, rhs);
    assert(out@ =~= old(out)@ + encode(Instr::Binary { op, dst, lhs, rhs }));
}

fn emit_2reg(op: Opcode, dst: u16, src: u16, out: &mut Vec<u8>)
    requires
        is_unary_op(op),
    ensures
        final(out)@ == old(out)@ + encode(Instr::Unary { op, dst, src }),
{
    out.push(op.byte());
    write_u16_le(out, dst);
    write_u16_le(out, src);
    assert(out@ =~= old(out)@ + encode(Instr::Unary { op, dst, src }));
}

fn error_of(m: &str) -> (e: IrError)
    ensures
        e.pos == 0,
        e.message@ == m@,
{
    IrError { pos: 0, message: m.to_string() }
}

fn copy_list(v: &Vec<u16>) -> (c: Vec<u16>)
    ensures
        c@ == v@,
{
    let mut c: Vec<u16> = Vec::new();
    let mut k: usize = 0;
    while k < v.len()
        invariant
            k <= v@.len(),
            c@ == v@.take(k as int),
        decreases v@.len() - k,
    {
        c.push(v[k]);
        assert(v@.take(k as int + 1) =~= v@.take(k as int).push(v@[k as int]));
        k = k + 1;
    }
    assert(v@.take(v@.len() as int) =~= v@);
    c
}

fn label_error(label: &String) -> (e: IrError)
    ensures
        e.pos == 0,
        e.message@ == "unknown label '"@ + label@ + "'"@,
{
    let mut m = String::from_str("unknown label '");
    m.append(label.as_str());
    m.append("'");
    IrError { pos: 0, message: m }
}

/// Appends the bytes of one IR instruction.
pub fn emit_instr(i: &IrInstr, labels: &LabelTable, interner: &StringInterner, out: &mut Vec<u8>) -> (r: Result<
    (),
    IrError,
>)
    ensures
        match emit_bytes(*i, labels@, interner@) {
            Ok(c) => r is Ok && final(out)@ == old(out)@ + c,
            Err(m) => (r matches Err(e) && e.pos == 0 && e.message@ == m) && final(out)@ == old(out)@,
        },
        has_format_opcode(*i) && operands_resolvable(*i, labels@, interner@) ==> {
            &&& r is Ok
            &&& final(out)@.len() == old(out)@.len() + ir_size(*i)->Some_0
            &&& final(out)@[old(out)@.len() as int] == crate::semcode_format::opcode_byte(
                crate::bytecode::instr_opcode(ir_code(*i, labels@, interner@)->Ok_0),
            )
        },
        !(*i is Label) && !has_format_opcode(*i) ==> (r matches Err(e) && e.message@ == no_opcode_message())
            && final(out)@ == old(out)@,
{
    proof {
        lemma_emit_outcome(*i, labels@, interner@);
    }
    let j = match i {
        IrInstr::Label { .. } => {
            assert(out@ =~= old(out)@ + Seq::<u8>::empty());
            return Ok(());
        },
        IrInstr::LoadQ { dst, val } => Instr::LoadQ { dst: *dst, val: quad_to_u8(*val) },
        IrInstr::LoadBool { dst, val } => Instr::LoadBool {
            dst: *dst,
            val: if *val {
                1
            } else {
                0
            },
        },
        IrInstr::LoadI32 { dst, val } => Instr::LoadI32 { dst: *dst, val: *val },
        IrInstr::LoadU32 { dst, val } => Instr::LoadU32 { dst: *dst, val: *val },
        IrInstr::LoadF64 { dst, val } => Instr::LoadF64 { dst: *dst, bits: *val },
        IrInstr::LoadFx { dst, val } => Instr::LoadFx { dst: *dst, val: *val },
        IrInstr::MakeTuple { dst, items } => {
            if items.len() > 65535 {
                return Err(error_of("tuple literal has too many elements"));
            }
            Instr::MakeTuple { dst: *dst, items: copy_list(items) }
        },
        IrInstr::TupleGet { dst, src, index } => Instr::TupleGet { dst: *dst, src: *src, index: *index },
        IrInstr::LoadVar { dst, name } => match interner.lookup(name.as_str()) {
            Ok(sid) => Instr::LoadVar { dst: *dst, sid },
            Err(e) => return Err(e),
        },
        IrInstr::StoreVar { name, src } => match interner.lookup(name.as_str()) {
            Ok(sid) => Instr::StoreVar { sid, src: *src },
            Err(e) => return Err(e),
        },
        IrInstr::QAnd { dst, lhs, rhs } => {
            emit_3reg(Opcode::QAnd, *dst, *lhs, *rhs, out);
            return Ok(());
        },
        IrInstr::QOr { dst, lhs, rhs } => {
            emit_3reg(Opcode::QOr, *dst, *lhs, *rhs, out);
            return Ok(());
        },
        IrInstr::QImpl { dst, lhs, rhs } => {
            emit_3reg(Opcode::QImpl, *dst, *lhs, *rhs, out);
            return Ok(());
        },
        IrInstr::BoolAnd { dst, lhs, rhs } => {
            emit_3reg(Opcode::BoolAnd, *dst, *lhs, *rhs, out);
            return Ok(());
        },
        IrInstr::BoolOr { dst, lhs, rhs } => {
            emit_3reg(Opcode::BoolOr, *dst, *lhs, *rhs, out);
            return Ok(());
        },
        IrInstr::CmpEq { dst, lhs, rhs } => {
            emit_3reg(Opcode::CmpEq, *dst, *lhs, *rhs, out);
            return Ok(());
        },
        IrInstr::CmpNe { dst, lhs, rhs } => {
            emit_3reg(Opcode::CmpNe, *dst, *lhs, *rhs, out);
            return Ok(());
        },
        IrInstr::CmpI32Lt { dst, lhs, rhs } => {
            emit_3reg(Opcode::CmpI32Lt, *dst, *lhs, *rhs, out);
            return Ok(());
        },
        IrInstr::CmpI32Le { dst, lhs, rhs } => {
            emit_3reg(Opcode::CmpI32Le, *dst, *lhs, *rhs, out);
            return Ok(());
        },
        IrInstr::AddI32 { dst, lhs, rhs } => {
            emit_3reg(Opcode::AddI32, *dst, *lhs, *rhs, out);
            return Ok(());
        },
        IrInstr::AddF64 { dst, lhs, rhs } => {
            emit_3reg(Opcode::AddF64, *dst, *lhs, *rhs, out);
            return Ok(());
        },
        IrInstr::SubF64 { dst, lhs, rhs } => {
            emit_3reg(Opcode::SubF64, *dst, *lhs, *rhs, out);
            return Ok(());
        },
        IrInstr::MulF64 { dst, lhs, rhs } => {
            emit_3reg(Opcode::MulF64, *dst, *lhs, *rhs, out);
            return Ok(());
        },
        IrInstr::DivF64 { dst, lhs, rhs } => {
            emit_3reg(Opcode::DivF64, *dst, *lhs, *rhs, out);
            return Ok(());
        },
        IrInstr::QNot { dst, src } => {
            emit_2reg(Opcode::QNot, *dst, *src, out);
            return Ok(());
        },
        IrInstr::BoolNot { dst, src } => {
            emit_2reg(Opcode::BoolNot, *dst, *src, out);
            return Ok(());
        },
        IrInstr::Jmp { label } => match labels.get(label) {
            Some(addr) => Instr::Jmp { addr },
            None => return Err(label_error(label)),
        },
        IrInstr::JmpIf { cond, label } => match labels.get(label) {
            Some(addr) => Instr::JmpIf { cond: *cond, addr },
            None => return Err(label_error(label)),
        },
        IrInstr::Assert { cond } => Instr::Assert { cond: *cond },
        IrInstr::Call { dst, name, args } => {
            let sid = match interner.lookup(name.as_str()) {
                Ok(sid) => sid,
                Err(e) => return Err(e),
            };
            if args.len() > 65535 {
                return Err(error_of("too many call args"));
            }
            match dst {
                Some(r) => Instr::Call { flag: 1, dst: *r, sid, args: copy_list(args) },
                None => Instr::Call { flag: 0, dst: 0, sid, args: copy_list(args) },
            }
        },
        IrInstr::GateRead { dst, device_id, port } => Instr::GateRead {
            dst: *dst,
            device_id: *device_id,
            port: *port,
        },
        IrInstr::GateWrite { device_id, port, src } => Instr::GateWrite {
            device_id: *device_id,
            port: *port,
            src: *src,
        },
        IrInstr::PulseEmit { signal } => match interner.lookup(signal.as_str()) {
            Ok(sid) => Instr::PulseEmit { sid },
            Err(e) => return Err(e),
        },
        IrInstr::Ret { src } => match src {
            Some(r) => Instr::Ret { flag: 1, src: *r },
            None => Instr::Ret { flag: 0, src: 0 },
        },
        _ => return Err(error_of("instruction has no opcode in this format")),
    };
    proof {
        let k = ir_code(*i, labels@, interner@)->Ok_0;
        lemma_encode_same(j, k);
    }
    encode_instr(&j, out);
    Ok(())
}

proof fn lemma_encode_same(a: Instr, b: Instr)
    requires
        crate::bytecode::same_instr(a, b),
    ensures
        encode(a) == encode(b),
{
    match (a, b) {
        (Instr::MakeTuple { .. }, Instr::MakeTuple { .. }) => {},
        (Instr::Call { .. }, Instr::Call { .. }) => {},
        _ => {},
    }
}

fn enter_instr_strings(interner: &mut StringInterner, i: &IrInstr) -> (r: Result<(), IrError>)
    ensures
        match enter_all(old(interner)@, ir_strings(*i)) {
            Some(t) => r is Ok && final(interner)@ == t,
            None => r matches Err(e) && e.pos == 0 && e.message@ == "string table overflow"@,
        },
{
    let ghost t0 = interner@;
    proof {
        assert(enter_all(t0, Seq::<Seq<char>>::empty()) == Some(t0));
        assert forall|x: Seq<char>| #[trigger] enter_all(t0, seq![x]) == enter_string(t0, x) by {
            assert(seq![x].drop_last() =~= Seq::<Seq<char>>::empty());
        }
    }
    let r = match i {
        IrInstr::LoadText { val, .. } => interner.id(val.as_str()),
        IrInstr::LoadVar { name, .. } => interner.id(name.as_str()),
        IrInstr::StoreVar { name, .. } => interner.id(name.as_str()),
        IrInstr::MakeRecord { name, .. } => interner.id(name.as_str()),
        IrInstr::MakeAdt { adt_name, variant_name, .. } => {
            proof {
                let xs = seq![adt_name@, variant_name@];
                assert(xs.drop_last() =~= seq![adt_name@]);
                assert(enter_all(t0, seq![adt_name@]) == enter_string(t0, adt_name@));
            }
            match interner.id(adt_name.as_str()) {
                Ok(_) => interner.id(variant_name.as_str()),
                Err(e) => Err(e),
            }
        },
        IrInstr::RecordGet { record_name, .. } => interner.id(record_name.as_str()),
        IrInstr::AdtTag { adt_name, .. } => interner.id(adt_name.as_str()),
        IrInstr::AdtGet { adt_name, .. } => interner.id(adt_name.as_str()),
        IrInstr::Call { name, .. } => interner.id(name.as_str()),
        IrInstr::PulseEmit { signal } => interner.id(signal.as_str()),
        IrInstr::StateQuery { key, .. } => interner.id(key.as_str()),
        IrInstr::StateUpdate { key, .. } => interner.id(key.as_str()),
        IrInstr::EventPost { signal } => interner.id(signal.as_str()),
        _ => {
            return Ok(());
        },
    };
    match r {
        Ok(_) => Ok(()),
        Err(e) => Err(e),
    }
}

proof fn lemma_table_prefix_none(instrs: Seq<IrInstr>, m: int)
    requires
        0 <= m <= instrs.len(),
        string_table(instrs.take(m)) is None,
    ensures
        string_table(instrs) is None,
    decreases instrs.len(),
{
    if instrs.len() == m {
        assert(instrs.take(m) =~= instrs);
    } else {
        assert(instrs.drop_last().take(m) =~= instrs.take(m));
        lemma_table_prefix_none(instrs.drop_last(), m);
    }
}

/// The labels of a function with their offsets, and the length of its
/// instruction stream; an error when the stream outgrows `u32`.
pub open spec fn label_scan(instrs: Seq<IrInstr>) -> Result<(Map<Seq<char>, u32>, u32), Seq<char>>
    decreases instrs.len(),
{
    if instrs.len() == 0 {
        Ok((Map::empty(), 0))
    } else {
        match label_scan(instrs.drop_last()) {
            Err(m) => Err(m),
            Ok((labels, pc)) => match instrs.last() {
                IrInstr::Label { name } => Ok((labels.insert(name@, pc), pc)),
                other => {
                    let size = ir_size(other)->Some_0;
                    if pc + size > u32::MAX {
                        Err("bytecode size overflow"@)
                    } else {
                        Ok((labels, (pc + size) as u32))
                    }
                },
            },
        }
    }
}

proof fn lemma_scan_prefix_err(instrs: Seq<IrInstr>, m: int)
    requires
        0 <= m <= instrs.len(),
        label_scan(instrs.take(m)) is Err,
    ensures
        label_scan(instrs) == label_scan(instrs.take(m)),
    decreases instrs.len(),
{
    if instrs.len() == m {
        assert(instrs.take(m) =~= instrs);
    } else {
        assert(instrs.drop_last().take(m) =~= instrs.take(m));
        lemma_scan_prefix_err(instrs.drop_last(), m);
    }
}

/// A debug entry: offset, line and column.
pub type DebugEntry = (u32, u32, u16);

/// The instruction stream of a function and, when `debug` is set, a debug
/// entry for each instruction: its offset, its position among the
/// instructions counted from 1, and column 1. The first failure is the
/// result.
pub open spec fn stream_of(instrs: Seq<IrInstr>, labels: Map<Seq<char>, u32>, t: Seq<Seq<char>>, debug: bool) -> Result<
    (Seq<u8>, Seq<DebugEntry>),
    Seq<char>,
>
    decreases instrs.len(),
{
    if instrs.len() == 0 {
        Ok((Seq::empty(), Seq::empty()))
    } else {
        match stream_of(instrs.drop_last(), labels, t, debug) {
            Err(m) => Err(m),
            Ok((b, d)) => {
                let i = instrs.last();
                if i is Label {
                    Ok((b, d))
                } else if b.len() > u32::MAX {
                    Err("instruction stream too large"@)
                } else {
                    match emit_bytes(i, labels, t) {
                        Err(m) => Err(m),
                        Ok(c) => if !debug {
                            Ok((b + c, d))
                        } else if d.len() + 1 > u32::MAX {
                            Err("debug table too large"@)
                        } else {
                            Ok((b + c, d.push((b.len() as u32, (d.len() + 1) as u32, 1u16))))
                        },
                    }
                }
            },
        }
    }
}

proof fn lemma_stream_prefix_err(
    instrs: Seq<IrInstr>,
    labels: Map<Seq<char>, u32>,
    t: Seq<Seq<char>>,
    debug: bool,
    m: int,
)
    requires
        0 <= m <= instrs.len(),
        stream_of(instrs.take(m), labels, t, debug) is Err,
    ensures
        stream_of(instrs, labels, t, debug) == stream_of(instrs.take(m), labels, t, debug),
    decreases instrs.len(),
{
    if instrs.len() == m {
        assert(instrs.take(m) =~= instrs);
    } else {
        assert(instrs.drop_last().take(m) =~= instrs.take(m));
        lemma_stream_prefix_err(instrs.drop_last(), labels, t, debug, m);
    }
}

/// The bytes of the debug entries.
pub open spec fn debug_bytes(d: Seq<DebugEntry>) -> Seq<u8>
    decreases d.len(),
{
    if d.len() == 0 {
        Seq::empty()
    } else {
        debug_bytes(d.drop_last()) + le_bytes_u32(d.last().0) + le_bytes_u32(d.last().1) + le_bytes_u16(
            d.last().2,
        )
    }
}

/// The tag that opens a debug table.
pub open spec fn debug_tag_bytes() -> Seq<u8> {
    seq![0x44u8, 0x42u8, 0x47u8, 0x30u8]
}

/// The code of a function: its string table, its debug table when `debug`
/// is set, and its instruction stream; or the first failure.
#[verifier::opaque]
pub open spec fn function_code(instrs: Seq<IrInstr>, debug: bool) -> Result<Seq<u8>, Seq<char>> {
    match string_table(instrs) {
        None => Err("string table overflow"@),
        Some(t) => match label_scan(instrs) {
            Err(m) => Err(m),
            Ok((labels, _)) => match stream_of(instrs, labels, t, debug) {
                Err(m) => Err(m),
                Ok((b, d)) => match table_bytes(t) {
                    Err(m) => Err(m),
                    Ok(tb) => if !debug {
                        Ok(tb + b)
                    } else if d.len() > u16::MAX {
                        Err("too many debug symbols"@)
                    } else {
                        Ok(tb + debug_tag_bytes() + le_bytes_u16(d.len() as u16) + debug_bytes(d) + b)
                    },
                },
            },
        },
    }
}

fn push_all(out: &mut Vec<u8>, b: &Vec<u8>)
    ensures
        final(out)@ == old(out)@ + b@,
{
    let ghost start = out@;
    let mut j: usize = 0;
    while j < b.len()
        invariant
            j <= b@.len(),
            out@ == start + b@.take(j as int),
        decreases b@.len() - j,
    {
        out.push(b[j]);
        assert(b@.take(j as int + 1) =~= b@.take(j as int).push(b@[j as int]));
        j = j + 1;
    }
    assert(b@.take(b@.len() as int) =~= b@);
}

fn push_bytes(out: &mut Vec<u8>, b: &[u8])
    ensures
        final(out)@ == old(out)@ + b@,
{
    let ghost start = out@;
    let mut j: usize = 0;
    while j < b.len()
        invariant
            j <= b@.len(),
            out@ == start + b@.take(j as int),
        decreases b@.len() - j,
    {
        out.push(b[j]);
        assert(b@.take(j as int + 1) =~= b@.take(j as int).push(b@[j as int]));
        j = j + 1;
    }
    assert(b@.take(b@.len() as int) =~= b@);
}

/// The code of one function: its string table, its debug table when
/// `debug_symbols` is set, and its instruction stream.
pub fn emit_semcode_function(f: &IrFunction, debug_symbols: bool) -> (r: Result<Vec<u8>, IrError>)
    ensures
        match function_code(f.instrs@, debug_symbols) {
            Ok(c) => r matches Ok(v) && v@ == c,
            Err(m) => r matches Err(e) && e.pos == 0 && e.message@ == m,
        },
{
    reveal(function_code);
    let instrs = &f.instrs;
    let ghost is = instrs@;
    let n = instrs.len();
    let mut interner = StringInterner::new();
    let mut k: usize = 0;
    assert(is.take(0) =~= Seq::<IrInstr>::empty());
    while k < n
        invariant
            is == instrs@,
            is == f.instrs@,
            n == is.len(),
            k <= n,
            string_table(is.take(k as int)) == Some(interner@),
        decreases n - k,
    {
        assert(is.take(k as int + 1).drop_last() =~= is.take(k as int));
        match enter_instr_strings(&mut interner, &instrs[k]) {
            Ok(()) => {},
            Err(e) => {
                proof {
                    reveal(function_code);
                    lemma_table_prefix_none(is, k as int + 1);
                }
                return Err(e);
            },
        }
        k = k + 1;
    }
    assert(is.take(n as int) =~= is);
    let ghost t = interner@;
    let mut labels = LabelTable::new();
    let mut pc: u32 = 0;
    k = 0;
    while k < n
        invariant
            is == instrs@,
            is == f.instrs@,
            n == is.len(),
            k <= n,
            t == interner@,
            string_table(is) == Some(t),
            label_scan(is.take(k as int)) == Ok::<(Map<Seq<char>, u32>, u32), Seq<char>>((labels@, pc)),
        decreases n - k,
    {
        assert(is.take(k as int + 1).drop_last() =~= is.take(k as int));
        assert(is.take(k as int + 1).last() == is[k as int]);
        match &instrs[k] {
            IrInstr::Label { name } => {
                labels.insert(name, pc);
            },
            other => {
                let size = match encoded_size(other) {
                    Some(s) => s,
                    None => {
                        return Err(error_of("label has no encoded size"));
                    },
                };
                match pc.checked_add(size) {
                    Some(p) => {
                        pc = p;
                    },
                    None => {
                        proof {
                            reveal(function_code);
                            lemma_scan_prefix_err(is, k as int + 1);
                        }
                        return Err(error_of("bytecode size overflow"));
                    },
                }
            },
        }
        k = k + 1;
    }
    assert(is.take(n as int) =~= is);
    let ghost lm = labels@;
    let mut stream: Vec<u8> = Vec::new();
    let mut dbg: Vec<(u32, u32, u16)> = Vec::new();
    k = 0;
    while k < n
        invariant
            is == instrs@,
            is == f.instrs@,
            n == is.len(),
            k <= n,
            t == interner@,
            lm == labels@,
            string_table(is) == Some(t),
            label_scan(is) matches Ok((l, _)) && l == lm,
            stream_of(is.take(k as int), lm, t, debug_symbols) == Ok::<(Seq<u8>, Seq<DebugEntry>), Seq<char>>(
                (stream@, dbg@),
            ),
        decreases n - k,
    {
        let ghost tk = is.take(k as int + 1);
        assert(tk.drop_last() =~= is.take(k as int));
        assert(tk.last() == is[k as int]);
        let i = &instrs[k];
        if let IrInstr::Label { .. } = i {
        } else {
            if stream.len() as u64 > 0xFFFF_FFFFu64 {
                proof {
                    reveal(function_code);
                    lemma_stream_prefix_err(is, lm, t, debug_symbols, k as int + 1);
                }
                return Err(error_of("instruction stream too large"));
            }
            let at = stream.len() as u32;
            match emit_instr(i, &labels, &interner, &mut stream) {
                Ok(()) => {},
                Err(e) => {
                    proof {
                        reveal(function_code);
                        lemma_stream_prefix_err(is, lm, t, debug_symbols, k as int + 1);
                    }
                    return Err(e);
                },
            }
            if debug_symbols {
                if dbg.len() as u64 >= 0xFFFF_FFFFu64 {
                    proof {
                        reveal(function_code);
                        lemma_stream_prefix_err(is, lm, t, debug_symbols, k as int + 1);
                    }
                    return Err(error_of("debug table too large"));
                }
                let line = (dbg.len() + 1) as u32;
                dbg.push((at, line, 1u16));
            }
        }
        k = k + 1;
    }
    assert(is.take(n as int) =~= is);
    let mut code: Vec<u8> = Vec::new();
    match interner.emit_table(&mut code) {
        Ok(()) => {},
        Err(e) => {
            return Err(e);
        },
    }
    if debug_symbols {
        if dbg.len() > 65535 {
            return Err(error_of("too many debug symbols"));
        }
        let ghost before_tag = code@;
        code.push(0x44);
        code.push(0x42);
        code.push(0x47);
        code.push(0x30);
        write_u16_le(&mut code, dbg.len() as u16);
        let ghost head = code@;
        assert(head =~= before_tag + debug_tag_bytes() + le_bytes_u16(dbg@.len() as u16));
        let mut j: usize = 0;
        assert(dbg@.take(0) =~= Seq::<DebugEntry>::empty());
        while j < dbg.len()
            invariant
                j <= dbg@.len(),
                code@ == head + debug_bytes(dbg@.take(j as int)),
            decreases dbg@.len() - j,
        {
            let (a, b, c) = dbg[j];
            write_u32_le(&mut code, a);
            write_u32_le(&mut code, b);
            write_u16_le(&mut code, c);
            proof {
                let dj = dbg@.take(j as int + 1);
                assert(dj.drop_last() =~= dbg@.take(j as int));
                assert(dj.last() == dbg@[j as int]);
                assert(code@ =~= head + debug_bytes(dj));
            }
            j = j + 1;
        }
        assert(dbg@.take(dbg@.len() as int) =~= dbg@);
    }
    push_all(&mut code, &stream);
    Ok(code)
}

/// Some instruction of some function satisfies `p`.
pub open spec fn some_instr(funcs: Seq<IrFunction>, p: spec_fn(IrInstr) -> bool) -> bool {
    exists|a: int, b: int| 0 <= a < funcs.len() && 0 <= b < funcs[a].instrs@.len() && p(#[trigger] funcs[a].instrs@[b])
}

/// An `f64` literal or `f64` arithmetic.
pub open spec fn is_f64_math(i: IrInstr) -> bool {
    ||| i is LoadF64
    ||| i is AddF64
    ||| i is SubF64
    ||| i is MulF64
    ||| i is DivF64
}

/// A fixed-point literal.
pub open spec fn is_fx_literal(i: IrInstr) -> bool {
    i is LoadFx
}

/// The header an emitted image starts with: the oldest revision that has
/// what the functions use.
pub open spec fn program_magic(funcs: Seq<IrFunction>) -> Seq<u8> {
    if some_instr(funcs, |i: IrInstr| is_fx_literal(i)) {
        magic_bytes(0x32)
    } else if some_instr(funcs, |i: IrInstr| is_f64_math(i)) {
        magic_bytes(0x31)
    } else {
        magic_bytes(0x30)
    }
}

/// The functions as bytes, each as its name's length and UTF-8 bytes, its
/// code's length and its code; or the first failure.
pub open spec fn functions_bytes(funcs: Seq<IrFunction>, debug: bool) -> Result<Seq<u8>, Seq<char>>
    decreases funcs.len(),
{
    if funcs.len() == 0 {
        Ok(Seq::empty())
    } else {
        match functions_bytes(funcs.drop_last(), debug) {
            Err(m) => Err(m),
            Ok(prev) => {
                let f = funcs.last();
                let nb = encode_utf8(f.name@);
                if nb.len() > u16::MAX {
                    Err("function name too long"@)
                } else {
                    match function_code(f.instrs@, debug) {
                        Err(m) => Err(m),
                        Ok(c) => if c.len() > u32::MAX {
                            Err("function code too large"@)
                        } else {
                            Ok(prev + le_bytes_u16(nb.len() as u16) + nb + le_bytes_u32(c.len() as u32) + c)
                        },
                    }
                }
            },
        }
    }
}

proof fn lemma_functions_prefix_err(funcs: Seq<IrFunction>, debug: bool, m: int)
    requires
        0 <= m <= funcs.len(),
        functions_bytes(funcs.take(m), debug) is Err,
    ensures
        functions_bytes(funcs, debug) == functions_bytes(funcs.take(m), debug),
    decreases funcs.len(),
{
    if funcs.len() == m {
        assert(funcs.take(m) =~= funcs);
    } else {
        assert(funcs.drop_last().take(m) =~= funcs.take(m));
        lemma_functions_prefix_err(funcs.drop_last(), debug, m);
    }
}

fn has_instr_where(funcs: &[IrFunction], fx: bool) -> (r: bool)
    ensures
        r == (if fx {
            some_instr(funcs@, |i: IrInstr| is_fx_literal(i))
        } else {
            some_instr(funcs@, |i: IrInstr| is_f64_math(i))
        }),
{
    let ghost p = if fx {
        |i: IrInstr| is_fx_literal(i)
    } else {
        |i: IrInstr| is_f64_math(i)
    };
    let mut a: usize = 0;
    while a < funcs.len()
        invariant
            a <= funcs@.len(),
            p == (if fx {
                |i: IrInstr| is_fx_literal(i)
            } else {
                |i: IrInstr| is_f64_math(i)
            }),
            forall|x: int, y: int| 0 <= x < a && 0 <= y < funcs@[x].instrs@.len() ==> !p(#[trigger] funcs@[x].instrs@[y]),
        decreases funcs@.len() - a,
    {
        let instrs = &funcs[a].instrs;
        let mut b: usize = 0;
        while b < instrs.len()
            invariant
                a < funcs@.len(),
                instrs@ == funcs@[a as int].instrs@,
                b <= instrs@.len(),
                p == (if fx {
                    |i: IrInstr| is_fx_literal(i)
                } else {
                    |i: IrInstr| is_f64_math(i)
                }),
                forall|x: int, y: int| 0 <= x < a && 0 <= y < funcs@[x].instrs@.len() ==> !p(#[trigger] funcs@[x].instrs@[y]),
                forall|y: int| 0 <= y < b ==> !p(#[trigger] funcs@[a as int].instrs@[y]),
            decreases instrs@.len() - b,
        {
            let hit = if fx {
                matches!(instrs[b], IrInstr::LoadFx { .. })
            } else {
                matches!(instrs[b], IrInstr::LoadF64 { .. } | IrInstr::AddF64 { .. } | IrInstr::SubF64 { .. } | IrInstr::MulF64 { .. } | IrInstr::DivF64 { .. })
            };
            if hit {
                assert(p(funcs@[a as int].instrs@[b as int]));
                return true;
            }
            b = b + 1;
        }
        a = a + 1;
    }
    false
}

/// An image of the functions: the header, then each function with its
/// string table, its debug table when `debug_symbols` is set, and its code.
pub fn emit_ir_to_semcode(funcs: &[IrFunction], debug_symbols: bool) -> (r: Result<Vec<u8>, IrError>)
    ensures
        match functions_bytes(funcs@, debug_symbols) {
            Ok(b) => r matches Ok(v) && v@ == program_magic(funcs@) + b,
            Err(m) => r matches Err(e) && e.pos == 0 && e.message@ == m,
        },
{
    let mut out: Vec<u8> = Vec::new();
    let d: u8 = if has_instr_where(funcs, true) {
        0x32
    } else if has_instr_where(funcs, false) {
        0x31
    } else {
        0x30
    };
    out.push(0x53);
    out.push(0x45);
    out.push(0x4D);
    out.push(0x43);
    out.push(0x4F);
    out.push(0x44);
    out.push(0x45);
    out.push(d);
    let ghost magic = out@;
    assert(magic =~= program_magic(funcs@));
    let mut k: usize = 0;
    assert(funcs@.take(0) =~= Seq::<IrFunction>::empty());
    while k < funcs.len()
        invariant
            k <= funcs@.len(),
            magic == program_magic(funcs@),
            functions_bytes(funcs@.take(k as int), debug_symbols) is Ok,
            out@ == magic + functions_bytes(funcs@.take(k as int), debug_symbols)->Ok_0,
        decreases funcs@.len() - k,
    {
        let ghost fk = funcs@.take(k as int + 1);
        assert(fk.drop_last() =~= funcs@.take(k as int));
        assert(fk.last() == funcs@[k as int]);
        let f = &funcs[k];
        let name_bytes = f.name.as_str().as_bytes();
        if name_bytes.len() > 65535 {
            proof {
                lemma_functions_prefix_err(funcs@, debug_symbols, k as int + 1);
            }
            return Err(error_of("function name too long"));
        }
        let ghost before = out@;
        write_u16_le(&mut out, name_bytes.len() as u16);
        push_bytes(&mut out, name_bytes);
        let code = match emit_semcode_function(f, debug_symbols) {
            Ok(c) => c,
            Err(e) => {
                proof {
                    lemma_functions_prefix_err(funcs@, debug_symbols, k as int + 1);
                }
                return Err(e);
            },
        };
        if code.len() as u64 > 0xFFFF_FFFFu64 {
            proof {
                lemma_functions_prefix_err(funcs@, debug_symbols, k as int + 1);
            }
            return Err(error_of("function code too large"));
        }
        write_u32_le(&mut out, code.len() as u32);
        push_all(&mut out, &code);
        assert(out@ =~= magic + functions_bytes(fk, debug_symbols)->Ok_0);
        k = k + 1;
    }
    assert(funcs@.take(funcs@.len() as int) =~= funcs@);
    Ok(out)
}

/// What is emitted for an instruction is `ir_size` bytes long and starts
/// with the instruction's opcode byte, so the label offsets computed from
/// `encoded_size` are the offsets where the instructions start.
pub proof fn lemma_emitted_size(i: IrInstr, labels: Map<Seq<char>, u32>, t: Seq<Seq<char>>)
    requires
        !(i is Label),
        emit_bytes(i, labels, t) is Ok,
    ensures
        ir_size(i) is Some,
        emit_bytes(i, labels, t)->Ok_0.len() == ir_size(i)->Some_0,
        emit_bytes(i, labels, t)->Ok_0[0] == crate::semcode_format::opcode_byte(
            crate::bytecode::instr_opcode(ir_code(i, labels, t)->Ok_0),
        ),
{
    let j = ir_code(i, labels, t)->Ok_0;
    crate::bytecode::lemma_encode_len(j);
    match i {
        IrInstr::MakeTuple { items, .. } => lemma_wrapped_small(5, items@.len()),
        IrInstr::Call { args, .. } => lemma_wrapped_small(8, args@.len()),
        _ => {},
    }
}

proof fn lemma_wrapped_small(base: nat, n: nat)
    requires
        base < 16,
        n <= u16::MAX,
    ensures
        wrapped_size(base, n) == base + 2 * n,
{
}

/// When success is owed: an instruction the format has an opcode for, with
/// all its operands resolvable, is emitted as `ir_size` bytes starting with
/// its opcode byte; one without an opcode is refused with
/// `no_opcode_message`.
pub proof fn lemma_emit_outcome(i: IrInstr, labels: Map<Seq<char>, u32>, t: Seq<Seq<char>>)
    ensures
        has_format_opcode(i) && operands_resolvable(i, labels, t) ==> {
            &&& emit_bytes(i, labels, t) is Ok
            &&& ir_size(i) is Some
            &&& emit_bytes(i, labels, t)->Ok_0.len() == ir_size(i)->Some_0
            &&& emit_bytes(i, labels, t)->Ok_0[0] == crate::semcode_format::opcode_byte(
                crate::bytecode::instr_opcode(ir_code(i, labels, t)->Ok_0),
            )
        },
        !(i is Label) && !has_format_opcode(i) ==> emit_bytes(i, labels, t) == Err::<Seq<u8>, Seq<char>>(
            no_opcode_message(),
        ),
{
    if has_format_opcode(i) && operands_resolvable(i, labels, t) {
        match i {
            IrInstr::LoadVar { name, .. } => {
                assert(ir_strings(i)[0] == name@);
            },
            IrInstr::StoreVar { name, .. } => {
                assert(ir_strings(i)[0] == name@);
            },
            IrInstr::Call { name, .. } => {
                assert(ir_strings(i)[0] == name@);
            },
            IrInstr::PulseEmit { signal } => {
                assert(ir_strings(i)[0] == signal@);
            },
            IrInstr::Jmp { label } => {
                assert(ir_labels(i)[0] == label@);
            },
            IrInstr::JmpIf { label, .. } => {
                assert(ir_labels(i)[0] == label@);
            },
            _ => {},
        }
        assert(emit_bytes(i, labels, t) is Ok);
        lemma_emitted_size(i, labels, t);
    }
}

/// An opcode byte followed by three little-endian register numbers.
pub open spec fn three_reg_bytes(opb: u8, dst: u16, lhs: u16, rhs: u16) -> Seq<u8> {
    seq![
        opb,
        (dst % 256) as u8,
        (dst / 256) as u8,
        (lhs % 256) as u8,
        (lhs / 256) as u8,
        (rhs % 256) as u8,
        (rhs / 256) as u8,
    ]
}

/// An opcode byte followed by two little-endian register numbers.
pub open spec fn two_reg_bytes(opb: u8, dst: u16, src: u16) -> Seq<u8> {
    seq![opb, (dst % 256) as u8, (dst / 256) as u8, (src % 256) as u8, (src / 256) as u8]
}

/// Law: a binary IR instruction becomes the bytecode instruction of the
/// same operation with its registers in the same order, destination first,
/// then the left and the right operand, and is emitted as its opcode byte
/// followed by those three registers in little-endian order.
pub proof fn lemma_binary_lowering(dst: u16, lhs: u16, rhs: u16, labels: Map<Seq<char>, u32>, t: Seq<Seq<char>>)
    ensures
        ir_code(IrInstr::QAnd { dst, lhs, rhs }, labels, t) == Ok::<Instr, Seq<char>>(
            Instr::Binary { op: Opcode::QAnd, dst, lhs, rhs },
        ),
        emit_bytes(IrInstr::QAnd { dst, lhs, rhs }, labels, t) == Ok::<Seq<u8>, Seq<char>>(
            three_reg_bytes(0x10, dst, lhs, rhs),
        ),
        ir_code(IrInstr::QOr { dst, lhs, rhs }, labels, t) == Ok::<Instr, Seq<char>>(
            Instr::Binary { op: Opcode::QOr, dst, lhs, rhs },
        ),
        emit_bytes(IrInstr::QOr { dst, lhs, rhs }, labels, t) == Ok::<Seq<u8>, Seq<char>>(
            three_reg_bytes(0x11, dst, lhs, rhs),
        ),
        ir_code(IrInstr::QImpl { dst, lhs, rhs }, labels, t) == Ok::<Instr, Seq<char>>(
            Instr::Binary { op: Opcode::QImpl, dst, lhs, rhs },
        ),
        emit_bytes(IrInstr::QImpl { dst, lhs, rhs }, labels, t) == Ok::<Seq<u8>, Seq<char>>(
            three_reg_bytes(0x13, dst, lhs, rhs),
        ),
        ir_code(IrInstr::BoolAnd { dst, lhs, rhs }, labels, t) == Ok::<Instr, Seq<char>>(
            Instr::Binary { op: Opcode::BoolAnd, dst, lhs, rhs },
        ),
        emit_bytes(IrInstr::BoolAnd { dst, lhs, rhs }, labels, t) == Ok::<Seq<u8>, Seq<char>>(
            three_reg_bytes(0x14, dst, lhs, rhs),
        ),
        ir_code(IrInstr::BoolOr { dst, lhs, rhs }, labels, t) == Ok::<Instr, Seq<char>>(
            Instr::Binary { op: Opcode::BoolOr, dst, lhs, rhs },
        ),
        emit_bytes(IrInstr::BoolOr { dst, lhs, rhs }, labels, t) == Ok::<Seq<u8>, Seq<char>>(
            three_reg_bytes(0x15, dst, lhs, rhs),
        ),
        ir_code(IrInstr::CmpEq { dst, lhs, rhs }, labels, t) == Ok::<Instr, Seq<char>>(
            Instr::Binary { op: Opcode::CmpEq, dst, lhs, rhs },
        ),
        emit_bytes(IrInstr::CmpEq { dst, lhs, rhs }, labels, t) == Ok::<Seq<u8>, Seq<char>>(
            three_reg_bytes(0x20, dst, lhs, rhs),
        ),
        ir_code(IrInstr::CmpNe { dst, lhs, rhs }, labels, t) == Ok::<Instr, Seq<char>>(
            Instr::Binary { op: Opcode::CmpNe, dst, lhs, rhs },
        ),
        emit_bytes(IrInstr::CmpNe { dst, lhs, rhs }, labels, t) == Ok::<Seq<u8>, Seq<char>>(
            three_reg_bytes(0x21, dst, lhs, rhs),
        ),
        ir_code(IrInstr::CmpI32Lt { dst, lhs, rhs }, labels, t) == Ok::<Instr, Seq<char>>(
            Instr::Binary { op: Opcode::CmpI32Lt, dst, lhs, rhs },
        ),
        emit_bytes(IrInstr::CmpI32Lt { dst, lhs, rhs }, labels, t) == Ok::<Seq<u8>, Seq<char>>(
            three_reg_bytes(0x22, dst, lhs, rhs),
        ),
        ir_code(IrInstr::CmpI32Le { dst, lhs, rhs }, labels, t) == Ok::<Instr, Seq<char>>(
            Instr::Binary { op: Opcode::CmpI32Le, dst, lhs, rhs },
        ),
        emit_bytes(IrInstr::CmpI32Le { dst, lhs, rhs }, labels, t) == Ok::<Seq<u8>, Seq<char>>(
            three_reg_bytes(0x23, dst, lhs, rhs),
        ),
        ir_code(IrInstr::AddI32 { dst, lhs, rhs }, labels, t) == Ok::<Instr, Seq<char>>(
            Instr::Binary { op: Opcode::AddI32, dst, lhs, rhs },
        ),
        emit_bytes(IrInstr::AddI32 { dst, lhs, rhs }, labels, t) == Ok::<Seq<u8>, Seq<char>>(
            three_reg_bytes(0x07, dst, lhs, rhs),
        ),
        ir_code(IrInstr::AddF64 { dst, lhs, rhs }, labels, t) == Ok::<Instr, Seq<char>>(
            Instr::Binary { op: Opcode::AddF64, dst, lhs, rhs },
        ),
        emit_bytes(IrInstr::AddF64 { dst, lhs, rhs }, labels, t) == Ok::<Seq<u8>, Seq<char>>(
            three_reg_bytes(0x51, dst, lhs, rhs),
        ),
        ir_code(IrInstr::SubF64 { dst, lhs, rhs }, labels, t) == Ok::<Instr, Seq<char>>(
            Instr::Binary { op: Opcode::SubF64, dst, lhs, rhs },
        ),
        emit_bytes(IrInstr::SubF64 { dst, lhs, rhs }, labels, t) == Ok::<Seq<u8>, Seq<char>>(
            three_reg_bytes(0x52, dst, lhs, rhs),
        ),
        ir_code(IrInstr::MulF64 { dst, lhs, rhs }, labels, t) == Ok::<Instr, Seq<char>>(
            Instr::Binary { op: Opcode::MulF64, dst, lhs, rhs },
        ),
        emit_bytes(IrInstr::MulF64 { dst, lhs, rhs }, labels, t) == Ok::<Seq<u8>, Seq<char>>(
            three_reg_bytes(0x53, dst, lhs, rhs),
        ),
        ir_code(IrInstr::DivF64 { dst, lhs, rhs }, labels, t) == Ok::<Instr, Seq<char>>(
            Instr::Binary { op: Opcode::DivF64, dst, lhs, rhs },
        ),
        emit_bytes(IrInstr::DivF64 { dst, lhs, rhs }, labels, t) == Ok::<Seq<u8>, Seq<char>>(
            three_reg_bytes(0x54, dst, lhs, rhs),
        ),
{
    assert(emit_bytes(IrInstr::QAnd { dst, lhs, rhs }, labels, t)->Ok_0 =~= three_reg_bytes(0x10, dst, lhs, rhs));
    assert(emit_bytes(IrInstr::QOr { dst, lhs, rhs }, labels, t)->Ok_0 =~= three_reg_bytes(0x11, dst, lhs, rhs));
    assert(emit_bytes(IrInstr::QImpl { dst, lhs, rhs }, labels, t)->Ok_0 =~= three_reg_bytes(0x13, dst, lhs, rhs));
    assert(emit_bytes(IrInstr::BoolAnd { dst, lhs, rhs }, labels, t)->Ok_0 =~= three_reg_bytes(0x14, dst, lhs, rhs));
    assert(emit_bytes(IrInstr::BoolOr { dst, lhs, rhs }, labels, t)->Ok_0 =~= three_reg_bytes(0x15, dst, lhs, rhs));
    assert(emit_bytes(IrInstr::CmpEq { dst, lhs, rhs }, labels, t)->Ok_0 =~= three_reg_bytes(0x20, dst, lhs, rhs));
    assert(emit_bytes(IrInstr::CmpNe { dst, lhs, rhs }, labels, t)->Ok_0 =~= three_reg_bytes(0x21, dst, lhs, rhs));
    assert(emit_bytes(IrInstr::CmpI32Lt { dst, lhs, rhs }, labels, t)->Ok_0 =~= three_reg_bytes(0x22, dst, lhs, rhs));
    assert(emit_bytes(IrInstr::CmpI32Le { dst, lhs, rhs }, labels, t)->Ok_0 =~= three_reg_bytes(0x23, dst, lhs, rhs));
    assert(emit_bytes(IrInstr::AddI32 { dst, lhs, rhs }, labels, t)->Ok_0 =~= three_reg_bytes(0x07, dst, lhs, rhs));
    assert(emit_bytes(IrInstr::AddF64 { dst, lhs, rhs }, labels, t)->Ok_0 =~= three_reg_bytes(0x51, dst, lhs, rhs));
    assert(emit_bytes(IrInstr::SubF64 { dst, lhs, rhs }, labels, t)->Ok_0 =~= three_reg_bytes(0x52, dst, lhs, rhs));
    assert(emit_bytes(IrInstr::MulF64 { dst, lhs, rhs }, labels, t)->Ok_0 =~= three_reg_bytes(0x53, dst, lhs, rhs));
    assert(emit_bytes(IrInstr::DivF64 { dst, lhs, rhs }, labels, t)->Ok_0 =~= three_reg_bytes(0x54, dst, lhs, rhs));
}

/// Law: a unary IR instruction keeps its destination and source, and is
/// emitted as its opcode byte followed by the two registers.
pub proof fn lemma_unary_lowering(dst: u16, src: u16, labels: Map<Seq<char>, u32>, t: Seq<Seq<char>>)
    ensures
        ir_code(IrInstr::QNot { dst, src }, labels, t) == Ok::<Instr, Seq<char>>(
            Instr::Unary { op: Opcode::QNot, dst, src },
        ),
        emit_bytes(IrInstr::QNot { dst, src }, labels, t) == Ok::<Seq<u8>, Seq<char>>(two_reg_bytes(0x12, dst, src)),
        ir_code(IrInstr::BoolNot { dst, src }, labels, t) == Ok::<Instr, Seq<char>>(
            Instr::Unary { op: Opcode::BoolNot, dst, src },
        ),
        emit_bytes(IrInstr::BoolNot { dst, src }, labels, t) == Ok::<Seq<u8>, Seq<char>>(two_reg_bytes(0x16, dst, src)),
{
    assert(emit_bytes(IrInstr::QNot { dst, src }, labels, t)->Ok_0 =~= two_reg_bytes(0x12, dst, src));
    assert(emit_bytes(IrInstr::BoolNot { dst, src }, labels, t)->Ok_0 =~= two_reg_bytes(0x16, dst, src));
}

/// Law: the register and constant operands of an IR instruction reach the
/// bytecode instruction unchanged and in their places: loads keep their
/// destination and value (a boolean as 1 or 0), `TupleGet` its destination,
/// source and index, `Assert` its condition, the device instructions their
/// registers, device and port, and `Ret` its register, flagged when there
/// is one.
pub proof fn lemma_operands_kept(
    dst: u16,
    src: u16,
    index: u16,
    i: i32,
    u: u32,
    bits: u64,
    flag: bool,
    device_id: u16,
    port: u16,
    labels: Map<Seq<char>, u32>,
    t: Seq<Seq<char>>,
)
    ensures
        ir_code(IrInstr::LoadBool { dst, val: flag }, labels, t) == Ok::<Instr, Seq<char>>(
            Instr::LoadBool { dst, val: if flag { 1 } else { 0 } },
        ),
        ir_code(IrInstr::LoadI32 { dst, val: i }, labels, t) == Ok::<Instr, Seq<char>>(Instr::LoadI32 { dst, val: i }),
        ir_code(IrInstr::LoadU32 { dst, val: u }, labels, t) == Ok::<Instr, Seq<char>>(Instr::LoadU32 { dst, val: u }),
        ir_code(IrInstr::LoadF64 { dst, val: bits }, labels, t) == Ok::<Instr, Seq<char>>(
            Instr::LoadF64 { dst, bits },
        ),
        ir_code(IrInstr::LoadFx { dst, val: i }, labels, t) == Ok::<Instr, Seq<char>>(Instr::LoadFx { dst, val: i }),
        ir_code(IrInstr::TupleGet { dst, src, index }, labels, t) == Ok::<Instr, Seq<char>>(
            Instr::TupleGet { dst, src, index },
        ),
        ir_code(IrInstr::Assert { cond: src }, labels, t) == Ok::<Instr, Seq<char>>(Instr::Assert { cond: src }),
        ir_code(IrInstr::GateRead { dst, device_id, port }, labels, t) == Ok::<Instr, Seq<char>>(
            Instr::GateRead { dst, device_id, port },
        ),
        ir_code(IrInstr::GateWrite { device_id, port, src }, labels, t) == Ok::<Instr, Seq<char>>(
            Instr::GateWrite { device_id, port, src },
        ),
        ir_code(IrInstr::Ret { src: Some(src) }, labels, t) == Ok::<Instr, Seq<char>>(Instr::Ret { flag: 1, src }),
        ir_code(IrInstr::Ret { src: None }, labels, t) == Ok::<Instr, Seq<char>>(Instr::Ret { flag: 0, src: 0 }),
{
}

/// Law: a jump reaches the offset its label was placed at, and a string
/// operand the index of the string in the function's table.
pub proof fn lemma_targets_resolved(
    cond: u16,
    dst: u16,
    src: u16,
    label: String,
    name: String,
    labels: Map<Seq<char>, u32>,
    t: Seq<Seq<char>>,
)
    ensures
        labels.contains_key(label@) ==> ir_code(IrInstr::Jmp { label }, labels, t) == Ok::<Instr, Seq<char>>(
            Instr::Jmp { addr: labels[label@] },
        ),
        labels.contains_key(label@) ==> ir_code(IrInstr::JmpIf { cond, label }, labels, t) == Ok::<
            Instr,
            Seq<char>,
        >(Instr::JmpIf { cond, addr: labels[label@] }),
        !labels.contains_key(label@) ==> ir_code(IrInstr::Jmp { label }, labels, t) is Err,
        index_from(t, name@, 0) matches Some(k) ==> ir_code(IrInstr::LoadVar { dst, name }, labels, t) == Ok::<
            Instr,
            Seq<char>,
        >(Instr::LoadVar { dst, sid: k as u16 }),
        index_from(t, name@, 0) matches Some(k) ==> ir_code(IrInstr::StoreVar { name, src }, labels, t) == Ok::<
            Instr,
            Seq<char>,
        >(Instr::StoreVar { sid: k as u16, src }),
        index_from(t, name@, 0) is None ==> ir_code(IrInstr::LoadVar { dst, name }, labels, t) is Err,
{
}

/// Law: what is emitted for an instruction reads back, wherever it is
/// placed, as the bytecode instruction it was lowered to.
pub proof fn lemma_emitted_instr_decodes(
    i: IrInstr,
    labels: Map<Seq<char>, u32>,
    t: Seq<Seq<char>>,
    prefix: Seq<u8>,
    suffix: Seq<u8>,
)
    requires
        !(i is Label),
        emit_bytes(i, labels, t) is Ok,
    ensures
        crate::bytecode::decodes_to(
            prefix + emit_bytes(i, labels, t)->Ok_0 + suffix,
            prefix.len() as int,
            ir_code(i, labels, t)->Ok_0,
        ),
{
    let j = ir_code(i, labels, t)->Ok_0;
    assert(instr_wf(j));
    crate::bytecode::lemma_encoding_found(prefix, j, suffix);
}

} // verus!
