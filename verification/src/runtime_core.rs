//! Runtime vocabulary shared by the verifier and the virtual machine:
//! symbol identifiers, execution contexts, quotas and the symbol tables.
use vstd::prelude::*;

verus! {

/// A record value: the name of its type and its slots, in declaration
/// order.
#[derive(Debug, Clone, PartialEq)]
pub struct RecordCarrier<T> {
    pub record_name: String,
    pub slots: Vec<T>,
}

/// A dense identifier for an interned runtime symbol.
#[derive(Debug, Clone, Copy, PartialEq, Eq, Structural, Hash, PartialOrd, Ord)]
pub struct SymbolId(pub u32);

impl SymbolId {
    pub fn new(raw: u32) -> (id: Self)
        ensures
            id.0 == raw,
    {
        SymbolId(raw)
    }

    pub fn raw(self) -> (raw: u32)
        ensures
            raw == self.0,
    {
        self.0
    }
}

/// The context a program runs in; it selects the default quotas.
#[derive(Debug, Clone, Copy, PartialEq, Eq, Structural)]
pub enum ExecutionContext {
    PureCompute,
    VerifiedLocal,
    RuleExecution,
    KernelBound,
}

/// The resource a quota bounds.
#[derive(Debug, Clone, Copy, PartialEq, Eq, Structural)]
pub enum QuotaKind {
    Steps,
    Calls,
    StackDepth,
    Frames,
    Registers,
    ConstPool,
    SymbolTable,
    EffectCalls,
    TraceEntries,
}

/// A report that `used` went past the `limit` of quota `kind`.
#[derive(Debug, Clone, Copy, PartialEq, Eq, Structural)]
pub struct QuotaExceeded {
    pub kind: QuotaKind,
    pub limit: usize,
    pub used: usize,
}

/// One step of an access path: an element of a tuple or a field of a record.
#[derive(Debug, Clone, Copy, PartialEq, Eq, Structural)]
pub enum PathComponent {
    TupleIndex(u16),
    Field(SymbolId),
}

/// A place in a local: the local's symbol and the steps into it.
#[derive(Debug, Clone, PartialEq, Eq)]
pub struct AccessPath {
    pub root: SymbolId,
    pub components: Vec<PathComponent>,
}

impl AccessPath {
    /// The path to the whole local `root`.
    pub fn new(root: SymbolId) -> (p: Self)
        ensures
            p.root == root,
            p.components@ == Seq::<PathComponent>::empty(),
    {
        AccessPath { root, components: Vec::new() }
    }

    /// This path extended by the tuple element `index`.
    pub fn tuple_index(self, index: u16) -> (p: Self)
        ensures
            p.root == self.root,
            p.components@ == self.components@.push(PathComponent::TupleIndex(index)),
    {
        let mut p = self;
        p.components.push(PathComponent::TupleIndex(index));
        p
    }

    /// This path extended by the record field `field`.
    pub fn field(self, field: SymbolId) -> (p: Self)
        ensures
            p.root == self.root,
            p.components@ == self.components@.push(PathComponent::Field(field)),
    {
        let mut p = self;
        p.components.push(PathComponent::Field(field));
        p
    }
}

/// The ways a run can trap.
#[derive(Debug, Clone, Copy, PartialEq, Eq, Structural)]
pub enum RuntimeTrap {
    AssertionFailed,
    StackOverflow,
    StackUnderflow,
    TypeMismatch,
    InvalidOpcode,
    InvalidJump,
    CapabilityDenied,
    AbiViolation,
    VerifierRejected,
    ArithmeticOverflow,
    DivisionByZero,
    BorrowWriteConflict,
    QuotaExceeded(QuotaExceeded),
}

/// Resource limits that a run must stay within.
#[derive(Debug, Clone, Copy, PartialEq, Eq, Structural)]
pub struct RuntimeQuotas {
    pub max_steps: usize,
    pub max_calls: usize,
    pub max_stack_depth: usize,
    pub max_frames: usize,
    pub max_registers: usize,
    pub max_const_pool: usize,
    pub max_symbol_table: usize,
    pub max_effect_calls: usize,
    pub max_trace_entries: usize,
}

impl RuntimeQuotas {
    /// The limit that `self` sets for `kind`.
    pub open spec fn limit_of(self, kind: QuotaKind) -> usize {
        match kind {
            QuotaKind::Steps => self.max_steps,
            QuotaKind::Calls => self.max_calls,
            QuotaKind::StackDepth => self.max_stack_depth,
            QuotaKind::Frames => self.max_frames,
            QuotaKind::Registers => self.max_registers,
            QuotaKind::ConstPool => self.max_const_pool,
            QuotaKind::SymbolTable => self.max_symbol_table,
            QuotaKind::EffectCalls => self.max_effect_calls,
            QuotaKind::TraceEntries => self.max_trace_entries,
        }
    }

    pub open spec fn spec_verified_local() -> RuntimeQuotas {
        RuntimeQuotas {
            max_steps: 100_000,
            max_calls: 16_384,
            max_stack_depth: 256,
            max_frames: 256,
            max_registers: 4_096,
            max_const_pool: 65_536,
            max_symbol_table: 16_384,
            max_effect_calls: 1_024,
            max_trace_entries: 8_192,
        }
    }

    pub open spec fn spec_pure_compute() -> RuntimeQuotas {
        RuntimeQuotas {
            max_steps: 100_000,
            max_calls: 16_384,
            max_stack_depth: 256,
            max_frames: 256,
            max_registers: 4_096,
            max_const_pool: 65_536,
            max_symbol_table: 16_384,
            max_effect_calls: 0,
            max_trace_entries: 4_096,
        }
    }

    pub open spec fn spec_kernel_bound() -> RuntimeQuotas {
        RuntimeQuotas {
            max_steps: 250_000,
            max_calls: 32_768,
            max_stack_depth: 256,
            max_frames: 256,
            max_registers: 8_192,
            max_const_pool: 65_536,
            max_symbol_table: 16_384,
            max_effect_calls: 4_096,
            max_trace_entries: 16_384,
        }
    }

    /// Quotas for verified local execution.
    pub fn verified_local() -> (q: Self)
        ensures
            q == Self::spec_verified_local(),
    {
        RuntimeQuotas {
            max_steps: 100_000,
            max_calls: 16_384,
            max_stack_depth: 256,
            max_frames: 256,
            max_registers: 4_096,
            max_const_pool: 65_536,
            max_symbol_table: 16_384,
            max_effect_calls: 1_024,
            max_trace_entries: 8_192,
        }
    }

    /// Quotas for pure computation: no effect calls at all.
    pub fn pure_compute() -> (q: Self)
        ensures
            q == Self::spec_pure_compute(),
    {
        RuntimeQuotas {
            max_steps: 100_000,
            max_calls: 16_384,
            max_stack_depth: 256,
            max_frames: 256,
            max_registers: 4_096,
            max_const_pool: 65_536,
            max_symbol_table: 16_384,
            max_effect_calls: 0,
            max_trace_entries: 4_096,
        }
    }

    /// Quotas for kernel-bound execution.
    pub fn kernel_bound() -> (q: Self)
        ensures
            q == Self::spec_kernel_bound(),
    {
        RuntimeQuotas {
            max_steps: 250_000,
            max_calls: 32_768,
            max_stack_depth: 256,
            max_frames: 256,
            max_registers: 8_192,
            max_const_pool: 65_536,
            max_symbol_table: 16_384,
            max_effect_calls: 4_096,
            max_trace_entries: 16_384,
        }
    }

    /// Reports whether `used` goes past the limit for `kind`.
    pub fn exceed(self, kind: QuotaKind, used: usize) -> (r: Option<QuotaExceeded>)
        ensures
            used > self.limit_of(kind) ==> r == Some(
                QuotaExceeded { kind, limit: self.limit_of(kind), used },
            ),
            used <= self.limit_of(kind) ==> r is None,
    {
        let limit = match kind {
            QuotaKind::Steps => self.max_steps,
            QuotaKind::Calls => self.max_calls,
            QuotaKind::StackDepth => self.max_stack_depth,
            QuotaKind::Frames => self.max_frames,
            QuotaKind::Registers => self.max_registers,
            QuotaKind::ConstPool => self.max_const_pool,
            QuotaKind::SymbolTable => self.max_symbol_table,
            QuotaKind::EffectCalls => self.max_effect_calls,
            QuotaKind::TraceEntries => self.max_trace_entries,
        };
        if used > limit {
            Some(QuotaExceeded { kind, limit, used })
        } else {
            None
        }
    }
}

impl Default for RuntimeQuotas {
    fn default() -> (q: Self)
        ensures
            q == Self::spec_verified_local(),
    {
        Self::verified_local()
    }
}

/// The context of a run together with its quotas.
#[derive(Debug, Clone, Copy, PartialEq, Eq, Structural)]
pub struct ExecutionConfig {
    pub context: ExecutionContext,
    pub quotas: RuntimeQuotas,
    pub trace_enabled: bool,
}

/// The quotas that each context runs under by default.
pub open spec fn context_quotas(context: ExecutionContext) -> RuntimeQuotas {
    match context {
        ExecutionContext::PureCompute => RuntimeQuotas::spec_pure_compute(),
        ExecutionContext::VerifiedLocal => RuntimeQuotas::spec_verified_local(),
        ExecutionContext::RuleExecution => RuntimeQuotas::spec_verified_local(),
        ExecutionContext::KernelBound => RuntimeQuotas::spec_kernel_bound(),
    }
}

impl ExecutionConfig {
    pub fn new(context: ExecutionContext, quotas: RuntimeQuotas) -> (c: Self)
        ensures
            c == (ExecutionConfig { context, quotas, trace_enabled: false }),
    {
        ExecutionConfig { context, quotas, trace_enabled: false }
    }

    /// The configuration of `context` with its default quotas.
    pub fn for_context(context: ExecutionContext) -> (c: Self)
        ensures
            c == (ExecutionConfig {
                context,
                quotas: context_quotas(context),
                trace_enabled: false,
            }),
    {
        let quotas = match context {
            ExecutionContext::PureCompute => RuntimeQuotas::pure_compute(),
            ExecutionContext::VerifiedLocal | ExecutionContext::RuleExecution => {
                RuntimeQuotas::verified_local()
            },
            ExecutionContext::KernelBound => RuntimeQuotas::kernel_bound(),
        };
        Self::new(context, quotas)
    }
}

/// Whether no name occurs twice in `names`.
pub open spec fn distinct_names(names: Seq<Seq<char>>) -> bool {
    forall|i: int, j: int| 0 <= i < j < names.len() ==> names[i] != names[j]
}

/// The names of a list of strings.
pub open spec fn names_of(v: Seq<String>) -> Seq<Seq<char>> {
    v.map_values(|s: String| s@)
}

/// The position of `name` in `names`, where it occurs.
pub open spec fn position_of(names: Seq<Seq<char>>, name: Seq<char>) -> int {
    choose|k: int| 0 <= k < names.len() && names[k] == name
}

/// What interning `name` into a table holding `names` gives: the new
/// table and the identifier. A known name keeps its identifier; a new
/// one is appended and numbered by its position (truncated to 32 bits).
pub open spec fn intern_result(names: Seq<Seq<char>>, name: Seq<char>) -> (Seq<Seq<char>>, u32) {
    if names.contains(name) {
        (names, #[verifier::truncate] (position_of(names, name) as u32))
    } else {
        (names.push(name), #[verifier::truncate] (names.len() as u32))
    }
}

/// In a table without repeats, a name occurs at one position only.
pub proof fn lemma_position_unique(names: Seq<Seq<char>>, name: Seq<char>, k: int)
    requires
        distinct_names(names),
        0 <= k < names.len(),
        names[k] == name,
    ensures
        position_of(names, name) == k,
{
    let p = position_of(names, name);
    assert(0 <= p < names.len() && names[p] == name);
    if p < k {
        assert(names[p] != names[k]);
    } else if k < p {
        assert(names[k] != names[p]);
    }
}

/// Interning is idempotent: interning a name a second time leaves the
/// table as it is and gives the identifier of the first time.
pub proof fn lemma_intern_idempotent(names: Seq<Seq<char>>, name: Seq<char>)
    requires
        distinct_names(names),
    ensures
        ({
            let (once, id) = intern_result(names, name);
            intern_result(once, name) == (once, id)
        }),
        names.len() < 0x1_0000_0000 ==> ({
            let (once, id) = intern_result(names, name);
            0 <= id < once.len() && once[id as int] == name
        }),
{
    if names.contains(name) {
        let k = choose|k: int| 0 <= k < names.len() && names[k] == name;
        lemma_position_unique(names, name, k);
    } else {
        let once = names.push(name);
        assert(once[names.len() as int] == name);
        assert(once.contains(name));
        assert(distinct_names(once)) by {
            assert forall|i: int, j: int| 0 <= i < j < once.len() implies once[i] != once[j] by {
                if j == names.len() {
                    if names[i] == name {
                        assert(names.contains(name));
                    }
                }
            }
        }
        lemma_position_unique(once, name, names.len() as int);
    }
}

/// The distinct names of `ns` in the order they are first seen.
pub open spec fn first_seen(ns: Seq<Seq<char>>) -> Seq<Seq<char>>
    decreases ns.len(),
{
    if ns.len() == 0 {
        Seq::empty()
    } else {
        let r = first_seen(ns.drop_last());
        if r.contains(ns.last()) {
            r
        } else {
            r.push(ns.last())
        }
    }
}

/// The table that interning the names `ns` one after another into an empty
/// table leaves.
pub open spec fn interned_table(ns: Seq<Seq<char>>) -> Seq<Seq<char>>
    decreases ns.len(),
{
    if ns.len() == 0 {
        Seq::empty()
    } else {
        intern_result(interned_table(ns.drop_last()), ns.last()).0
    }
}

/// The identifier that the `k`-th of the interns `ns` returns.
pub open spec fn interned_id(ns: Seq<Seq<char>>, k: int) -> u32 {
    intern_result(interned_table(ns.take(k)), ns[k]).1
}

proof fn lemma_first_seen_basic(ns: Seq<Seq<char>>)
    ensures
        interned_table(ns) == first_seen(ns),
        distinct_names(first_seen(ns)),
        first_seen(ns).len() <= ns.len(),
        forall|n: Seq<char>| first_seen(ns).contains(n) <==> ns.contains(n),
    decreases ns.len(),
{
    if ns.len() > 0 {
        let p = ns.drop_last();
        lemma_first_seen_basic(p);
        let r = first_seen(p);
        let x = ns.last();
        if !r.contains(x) {
            let t = r.push(x);
            assert forall|i: int, j: int| 0 <= i < j < t.len() implies t[i] != t[j] by {
                if j == r.len() && t[i] == x {
                    assert(r[i] == x);
                    assert(r.contains(x));
                }
            }
        }
        assert forall|n: Seq<char>| first_seen(ns).contains(n) <==> ns.contains(n) by {
            if ns.contains(n) {
                let k = choose|k: int| 0 <= k < ns.len() && ns[k] == n;
                if k < p.len() {
                    assert(p[k] == n);
                    assert(p.contains(n));
                } else {
                    assert(n == x);
                }
                if r.contains(x) {
                } else {
                    assert(first_seen(ns) == r.push(x));
                    assert(r.push(x)[r.len() as int] == x);
                    if !p.contains(n) {
                        assert(first_seen(ns)[r.len() as int] == n);
                    } else {
                        let i = choose|i: int| 0 <= i < r.len() && r[i] == n;
                        assert(first_seen(ns)[i] == n);
                    }
                }
            }
            if first_seen(ns).contains(n) {
                let i = choose|i: int| 0 <= i < first_seen(ns).len() && first_seen(ns)[i] == n;
                if i < r.len() {
                    assert(r[i] == n);
                    assert(r.contains(n));
                    assert(p.contains(n));
                    let k = choose|k: int| 0 <= k < p.len() && p[k] == n;
                    assert(p[k] == ns[k]);
                    assert(ns.contains(n));
                } else {
                    assert(n == x);
                    assert(ns[ns.len() - 1] == n);
                }
            }
        }
    }
}

proof fn lemma_first_seen_prefix(ns: Seq<Seq<char>>, m: int)
    requires
        0 <= m <= ns.len(),
    ensures
        first_seen(ns.take(m)).len() <= first_seen(ns).len(),
        forall|i: int| 0 <= i < first_seen(ns.take(m)).len() ==> first_seen(ns.take(m))[i] == first_seen(ns)[i],
    decreases ns.len(),
{
    if m == ns.len() {
        assert(ns.take(m) =~= ns);
    } else {
        let p = ns.drop_last();
        lemma_first_seen_prefix(p, m);
        assert(p.take(m) =~= ns.take(m));
    }
}

/// Interning names one after another into an empty table numbers the
/// distinct names densely in the order they are first seen: the table is
/// `first_seen(ns)`, holds no name twice and exactly the names of `ns`, and
/// the identifier each intern returns names the interned name in the final
/// table.
pub proof fn lemma_intern_sequence(ns: Seq<Seq<char>>)
    requires
        ns.len() < 0x1_0000_0000,
    ensures
        interned_table(ns) == first_seen(ns),
        distinct_names(interned_table(ns)),
        forall|n: Seq<char>| interned_table(ns).contains(n) <==> ns.contains(n),
        forall|k: int|
            0 <= k < ns.len() ==> (#[trigger] interned_id(ns, k)) < interned_table(ns).len()
                && interned_table(ns)[interned_id(ns, k) as int] == ns[k],
{
    lemma_first_seen_basic(ns);
    assert forall|k: int|
        0 <= k < ns.len() implies (#[trigger] interned_id(ns, k)) < interned_table(ns).len()
            && interned_table(ns)[interned_id(ns, k) as int] == ns[k] by {
        let pre = ns.take(k);
        let pre1 = ns.take(k + 1);
        lemma_first_seen_basic(pre);
        lemma_first_seen_basic(pre1);
        lemma_intern_idempotent(interned_table(pre), ns[k]);
        assert(pre1.drop_last() =~= pre);
        assert(pre1.last() == ns[k]);
        assert(interned_table(pre1) == intern_result(interned_table(pre), ns[k]).0);
        lemma_first_seen_prefix(ns, k + 1);
    }
}

/// Interns names to dense identifiers, first come first numbered.
#[derive(Debug)]
pub struct RuntimeSymbolTable {
    ordered: Vec<String>,
}

impl View for RuntimeSymbolTable {
    type V = Seq<Seq<char>>;

    /// The interned names, by identifier.
    closed spec fn view(&self) -> Seq<Seq<char>> {
        names_of(self.ordered@)
    }
}

/// Finds `name` in `names`; the index of its first occurrence.
fn find_name(names: &Vec<String>, name: &str) -> (r: Option<usize>)
    ensures
        match r {
            Some(k) => k < names@.len() && names_of(names@)[k as int] == name@ && forall|j: int|
                0 <= j < k ==> names_of(names@)[j] != name@,
            None => !names_of(names@).contains(name@),
        },
{
    let mut i: usize = 0;
    while i < names.len()
        invariant
            i <= names@.len(),
            forall|j: int| 0 <= j < i ==> names_of(names@)[j] != name@,
        decreases names@.len() - i,
    {
        if crate::text::str_eq(names[i].as_str(), name) {
            return Some(i);
        }
        i = i + 1;
    }
    proof {
        if names_of(names@).contains(name@) {
            let k = choose|k: int| 0 <= k < names_of(names@).len() && names_of(names@)[k] == name@;
            assert(names_of(names@)[k] != name@);
        }
    }
    None
}


/// A copy of `names`, string by string.
fn copy_names(names: &Vec<String>) -> (r: Vec<String>)
    ensures
        names_of(r@) == names_of(names@),
{
    let mut out: Vec<String> = Vec::new();
    let mut i: usize = 0;
    while i < names.len()
        invariant
            i <= names@.len(),
            names_of(out@) =~= names_of(names@.subrange(0, i as int)),
        decreases names@.len() - i,
    {
        out.push(names[i].clone());
        i = i + 1;
        assert(names_of(names@.subrange(0, i as int)) =~= names_of(
            names@.subrange(0, i - 1 as int),
        ).push(names@[i - 1]@));
    }
    assert(names@.subrange(0, i as int) =~= names@);
    out
}

impl Clone for RuntimeSymbolTable {
    fn clone(&self) -> (t: Self)
        ensures
            t@ == self@,
    {
        proof {
            use_type_invariant(self);
        }
        RuntimeSymbolTable { ordered: copy_names(&self.ordered) }
    }
}

impl Default for RuntimeSymbolTable {
    fn default() -> (t: Self)
        ensures
            t@ == Seq::<Seq<char>>::empty(),
    {
        Self::new()
    }
}

impl RuntimeSymbolTable {
    #[verifier::type_invariant]
    spec fn names_distinct(&self) -> bool {
        distinct_names(names_of(self.ordered@))
    }

    pub fn new() -> (t: Self)
        ensures
            t@ == Seq::<Seq<char>>::empty(),
            distinct_names(t@),
    {
        let t = RuntimeSymbolTable { ordered: Vec::new() };
        assert(t@ =~= Seq::<Seq<char>>::empty());
        t
    }

    /// The identifier of `name`, interning it when it is new.
    pub fn intern(&mut self, name: &str) -> (id: SymbolId)
        ensures
            (final(self)@, id.0) == intern_result(old(self)@, name@),
            distinct_names(old(self)@),
            distinct_names(final(self)@),
    {
        proof {
            use_type_invariant(&*self);
        }
        match find_name(&self.ordered, name) {
            Some(k) => {
                proof {
                    lemma_position_unique(self@, name@, k as int);
                }
                SymbolId(#[verifier::truncate] (k as u32))
            },
            None => {
                let id = SymbolId(#[verifier::truncate] (self.ordered.len() as u32));
                let owned = name.to_owned();
                let mut ordered = Vec::new();
                std::mem::swap(&mut ordered, &mut self.ordered);
                let ghost before = ordered@;
                ordered.push(owned);
                proof {
                    assert(names_of(ordered@) =~= names_of(before).push(name@));
                    assert forall|i: int, j: int|
                        0 <= i < j < names_of(ordered@).len() implies names_of(ordered@)[i]
                        != names_of(ordered@)[j] by {
                        if j == names_of(before).len() {
                            assert(names_of(before)[i] != name@) by {
                                if names_of(before)[i] == name@ {
                                    assert(names_of(before).contains(name@));
                                }
                            }
                        }
                    }
                }
                self.ordered = ordered;
                id
            },
        }
    }

    /// The name of `id`, if it was interned.
    pub fn resolve(&self, id: SymbolId) -> (r: Option<&str>)
        ensures
            (id.0 < self@.len()) == (r is Some),
            r matches Some(s) ==> s@ == self@[id.0 as int],
            distinct_names(self@),
    {
        proof {
            use_type_invariant(self);
        }
        let idx = id.0 as usize;
        if idx < self.ordered.len() {
            Some(self.ordered[idx].as_str())
        } else {
            None
        }
    }

    pub fn len(&self) -> (n: usize)
        ensures
            n == self@.len(),
            distinct_names(self@),
    {
        proof {
            use_type_invariant(self);
        }
        self.ordered.len()
    }

    pub fn is_empty(&self) -> (b: bool)
        ensures
            b == (self@.len() == 0),
    {
        self.ordered.len() == 0
    }
}

/// An append-only list of debug names, numbered in order.
#[derive(Debug, Clone, Default)]
pub struct DebugNameMap {
    names: Vec<String>,
}

impl View for DebugNameMap {
    type V = Seq<Seq<char>>;

    closed spec fn view(&self) -> Seq<Seq<char>> {
        names_of(self.names@)
    }
}

impl DebugNameMap {
    pub fn new() -> (m: Self)
        ensures
            m@ == Seq::<Seq<char>>::empty(),
    {
        let m = DebugNameMap { names: Vec::new() };
        assert(m@ =~= Seq::<Seq<char>>::empty());
        m
    }

    /// Appends `name`; its identifier is its position.
    pub fn push(&mut self, name: &str) -> (id: SymbolId)
        ensures
            final(self)@ == old(self)@.push(name@),
            id.0 == #[verifier::truncate] (old(self)@.len() as u32),
    {
        let id = SymbolId(#[verifier::truncate] (self.names.len() as u32));
        let ghost before = self.names@;
        self.names.push(name.to_owned());
        assert(names_of(self.names@) =~= names_of(before).push(name@));
        id
    }

    /// The name with identifier `id`, if there is one.
    pub fn resolve(&self, id: SymbolId) -> (r: Option<&str>)
        ensures
            (id.0 < self@.len()) == (r is Some),
            r matches Some(s) ==> s@ == self@[id.0 as int],
    {
        let idx = id.0 as usize;
        if idx < self.names.len() {
            Some(self.names[idx].as_str())
        } else {
            None
        }
    }

    pub fn len(&self) -> (n: usize)
        ensures
            n == self@.len(),
    {
        self.names.len()
    }
}

} // verus!
