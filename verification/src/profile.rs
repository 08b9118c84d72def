//! Parser profiles: the identity, ABI surface and feature policy of a
//! dialect, with aliases that map its spellings to canonical tokens, and
//! the training that learns such aliases from examples.
use vstd::prelude::*;
use crate::alias_table::AliasTable;
use crate::lexer::{lemma_lex_idempotent, lex, lex_spans, span_texts, spaced, spans_in};
use crate::text::{chars_of, owned, str_eq};

verus! {

broadcast use vstd::string::group_string_axioms;

/// The version of a profile.
#[derive(Debug, Clone, Copy, PartialEq, Eq, Structural)]
pub struct ProfileVersion {
    pub major: u16,
    pub minor: u16,
}

impl ProfileVersion {
    pub fn new(major: u16, minor: u16) -> (v: Self)
        ensures
            v == (ProfileVersion { major, minor }),
    {
        ProfileVersion { major, minor }
    }
}

impl Default for ProfileVersion {
    fn default() -> (v: Self)
        ensures
            v == (ProfileVersion { major: 1, minor: 0 }),
    {
        Self::new(1, 0)
    }
}

/// The ABI surface that a profile targets.
#[derive(Debug, Clone, Copy, PartialEq, Eq, Structural)]
pub enum AbiProfile {
    Core,
    GateSurface,
}

impl Default for AbiProfile {
    fn default() -> (a: Self)
        ensures
            a == AbiProfile::Core,
    {
        AbiProfile::Core
    }
}

/// How strictly a profile treats legacy input.
#[derive(Debug, Clone, Copy, PartialEq, Eq, Structural)]
pub enum CompatibilityMode {
    Strict,
    LegacySupport,
}

impl Default for CompatibilityMode {
    fn default() -> (m: Self)
        ensures
            m == CompatibilityMode::Strict,
    {
        CompatibilityMode::Strict
    }
}

/// The language features that a profile admits.
#[derive(Debug, Clone, Copy, PartialEq, Eq, Structural)]
pub struct FeaturePolicy {
    pub allow_debug_symbols: bool,
    pub allow_f64_math: bool,
    pub allow_gate_surface: bool,
    pub allow_logos_surface: bool,
}

impl FeaturePolicy {
    /// The core policy: nothing beyond the core language.
    pub fn core_policy() -> (p: Self)
        ensures
            p == (FeaturePolicy {
                allow_debug_symbols: false,
                allow_f64_math: false,
                allow_gate_surface: false,
                allow_logos_surface: false,
            }),
    {
        FeaturePolicy {
            allow_debug_symbols: false,
            allow_f64_math: false,
            allow_gate_surface: false,
            allow_logos_surface: false,
        }
    }
}

impl Default for FeaturePolicy {
    fn default() -> (p: Self)
        ensures
            p == (FeaturePolicy {
                allow_debug_symbols: false,
                allow_f64_math: false,
                allow_gate_surface: false,
                allow_logos_surface: false,
            }),
    {
        Self::core_policy()
    }
}

/// The capabilities that a profile expects of its target.
#[derive(Debug, Clone, Copy, PartialEq, Eq, Structural)]
pub struct CapabilityExpectations {
    pub require_debug_symbols: bool,
    pub require_f64_math: bool,
    pub require_gate_surface: bool,
}

impl CapabilityExpectations {
    /// Expectations that require nothing.
    pub fn permissive() -> (c: Self)
        ensures
            c == (CapabilityExpectations {
                require_debug_symbols: false,
                require_f64_math: false,
                require_gate_surface: false,
            }),
    {
        CapabilityExpectations {
            require_debug_symbols: false,
            require_f64_math: false,
            require_gate_surface: false,
        }
    }
}

impl Default for CapabilityExpectations {
    fn default() -> (c: Self)
        ensures
            c == (CapabilityExpectations {
                require_debug_symbols: false,
                require_f64_math: false,
                require_gate_surface: false,
            }),
    {
        Self::permissive()
    }
}

/// A parser profile.
#[derive(Debug)]
pub struct ParserProfile {
    pub identity: String,
    pub version: ProfileVersion,
    pub abi: AbiProfile,
    pub compatibility: CompatibilityMode,
    pub features: FeaturePolicy,
    pub capabilities: CapabilityExpectations,
    pub aliases: AliasTable,
}

impl Clone for ParserProfile {
    fn clone(&self) -> (p: Self)
        ensures
            p.identity@ == self.identity@,
            p.version == self.version,
            p.abi == self.abi,
            p.compatibility == self.compatibility,
            p.features == self.features,
            p.capabilities == self.capabilities,
            p.aliases@ == self.aliases@,
    {
        ParserProfile {
            identity: self.identity.clone(),
            version: self.version,
            abi: self.abi,
            compatibility: self.compatibility,
            features: self.features,
            capabilities: self.capabilities,
            aliases: self.aliases.clone(),
        }
    }
}

/// The profile that `Default` gives: the core identity, ABI and policy,
/// and no aliases.
pub open spec fn is_core_default(p: ParserProfile) -> bool {
    &&& p.identity@ == "semantic.core"@
    &&& p.version == (ProfileVersion { major: 1, minor: 0 })
    &&& p.abi == AbiProfile::Core
    &&& p.compatibility == CompatibilityMode::Strict
    &&& p.features == (FeaturePolicy {
        allow_debug_symbols: false,
        allow_f64_math: false,
        allow_gate_surface: false,
        allow_logos_surface: false,
    })
    &&& p.capabilities == (CapabilityExpectations {
        require_debug_symbols: false,
        require_f64_math: false,
        require_gate_surface: false,
    })
    &&& p.aliases@ == Map::<Seq<char>, Seq<char>>::empty()
}

impl Default for ParserProfile {
    fn default() -> (p: Self)
        ensures
            is_core_default(p),
    {
        ParserProfile {
            identity: owned("semantic.core"),
            version: ProfileVersion::default(),
            abi: AbiProfile::default(),
            compatibility: CompatibilityMode::default(),
            features: FeaturePolicy::default(),
            capabilities: CapabilityExpectations::default(),
            aliases: AliasTable::new(),
        }
    }
}

/// How a token reads after alias substitution.
pub open spec fn render(m: Map<Seq<char>, Seq<char>>, t: Seq<char>) -> Seq<char> {
    if m.contains_key(t) {
        m[t]
    } else {
        t
    }
}

/// The tokens, each read through the aliases, joined by single spaces.
pub open spec fn joined(m: Map<Seq<char>, Seq<char>>, toks: Seq<Seq<char>>) -> Seq<char>
    decreases toks.len(),
{
    if toks.len() == 0 {
        Seq::empty()
    } else if toks.len() == 1 {
        render(m, toks[0])
    } else {
        joined(m, toks.drop_last()) + seq![' '] + render(m, toks.last())
    }
}

/// An ASCII letter, digit or underscore.
pub open spec fn is_word_char(c: char) -> bool {
    ('0' <= c <= '9') || ('a' <= c <= 'z') || ('A' <= c <= 'Z') || c == '_'
}

/// A token that may be learnt as an alias spelling: letters, digits and
/// underscores only, and at least one of them.
pub open spec fn is_alias_input(t: Seq<char>) -> bool {
    t.len() > 0 && forall|i: int| 0 <= i < t.len() ==> is_word_char(#[trigger] t[i])
}

/// A canonical token that an alias may stand for.
pub open spec fn is_supported_canonical(t: Seq<char>) -> bool {
    t.len() == 1 && (t[0] == '!' || t[0] == '&' || t[0] == '|' || t[0] == '^' || t[0] == 'N'
        || t[0] == 'F' || t[0] == 'T' || t[0] == 'S')
}

/// Whether `raw` may be learnt as an alias of `canonical`.
pub open spec fn can_learn(raw: Seq<char>, canonical: Seq<char>) -> bool {
    is_alias_input(raw) && is_supported_canonical(canonical)
}

/// The aliases after learning from the first `n` token pairs: a pair of
/// different tokens teaches its alias unless the spelling has one.
pub open spec fn learn_pairs(
    m: Map<Seq<char>, Seq<char>>,
    raws: Seq<Seq<char>>,
    canons: Seq<Seq<char>>,
    n: int,
) -> Map<Seq<char>, Seq<char>>
    decreases n,
{
    if n <= 0 {
        m
    } else {
        let before = learn_pairs(m, raws, canons, n - 1);
        let raw = raws[n - 1];
        let canonical = canons[n - 1];
        if raw != canonical && can_learn(raw, canonical) && !before.contains_key(raw) {
            before.insert(raw, canonical)
        } else {
            before
        }
    }
}

/// The aliases after learning from one example; an example whose two
/// sides lex to different numbers of tokens teaches nothing.
pub open spec fn learn_sample(
    m: Map<Seq<char>, Seq<char>>,
    input: Seq<char>,
    target: Seq<char>,
) -> Map<Seq<char>, Seq<char>> {
    let raws = lex(input);
    let canons = lex(target);
    if raws.len() != canons.len() {
        m
    } else {
        learn_pairs(m, raws, canons, raws.len() as int)
    }
}

/// The aliases after learning from the first `n` examples, in order.
pub open spec fn learn_samples(
    m: Map<Seq<char>, Seq<char>>,
    samples: Seq<TrainingSample>,
    n: int,
) -> Map<Seq<char>, Seq<char>>
    decreases n,
{
    if n <= 0 {
        m
    } else {
        learn_sample(learn_samples(m, samples, n - 1), samples[n - 1].input@, samples[n - 1].target@)
    }
}

/// Learning never changes an alias that is already there, and every
/// alias that it adds maps a word spelling to a supported canonical token.
pub proof fn lemma_learn_pairs_monotone(
    m: Map<Seq<char>, Seq<char>>,
    raws: Seq<Seq<char>>,
    canons: Seq<Seq<char>>,
    n: int,
)
    ensures
        forall|k: Seq<char>| #[trigger] m.contains_key(k) ==> learn_pairs(m, raws, canons, n).contains_key(k)
            && learn_pairs(m, raws, canons, n)[k] == m[k],
        forall|k: Seq<char>| #[trigger] learn_pairs(m, raws, canons, n).contains_key(k) && !m.contains_key(k)
            ==> can_learn(k, learn_pairs(m, raws, canons, n)[k]),
    decreases n,
{
    if n > 0 {
        lemma_learn_pairs_monotone(m, raws, canons, n - 1);
        let before = learn_pairs(m, raws, canons, n - 1);
        let after = learn_pairs(m, raws, canons, n);
        assert forall|k: Seq<char>| #[trigger] after.contains_key(k) && !m.contains_key(k)
            implies can_learn(k, after[k]) by {
            if before.contains_key(k) {
                assert(after[k] == before[k]);
            }
        }
    }
}

/// Training keeps every alias that the profile had before it, and each
/// alias that it adds maps a word spelling to a supported canonical
/// token.
pub proof fn lemma_training_keeps_aliases(
    m: Map<Seq<char>, Seq<char>>,
    samples: Seq<TrainingSample>,
    n: int,
)
    ensures
        forall|k: Seq<char>| #[trigger] m.contains_key(k) ==> learn_samples(m, samples, n).contains_key(k)
            && learn_samples(m, samples, n)[k] == m[k],
        forall|k: Seq<char>| #[trigger] learn_samples(m, samples, n).contains_key(k) && !m.contains_key(k)
            ==> can_learn(k, learn_samples(m, samples, n)[k]),
    decreases n,
{
    if n > 0 {
        lemma_training_keeps_aliases(m, samples, n - 1);
        let before = learn_samples(m, samples, n - 1);
        let raws = lex(samples[n - 1].input@);
        let canons = lex(samples[n - 1].target@);
        lemma_learn_pairs_monotone(before, raws, canons, raws.len() as int);
    }
}

impl ParserProfile {
    /// The foundation profile: every feature allowed, gate-surface ABI,
    /// legacy support, and no aliases.
    pub fn foundation_default() -> (p: Self)
        ensures
            p.identity@ == "semantic.foundation"@,
            p.version == (ProfileVersion { major: 1, minor: 0 }),
            p.abi == AbiProfile::GateSurface,
            p.compatibility == CompatibilityMode::LegacySupport,
            p.features == (FeaturePolicy {
                allow_debug_symbols: true,
                allow_f64_math: true,
                allow_gate_surface: true,
                allow_logos_surface: true,
            }),
            p.capabilities == (CapabilityExpectations {
                require_debug_symbols: false,
                require_f64_math: false,
                require_gate_surface: false,
            }),
            p.aliases@ == Map::<Seq<char>, Seq<char>>::empty(),
    {
        ParserProfile {
            identity: owned("semantic.foundation"),
            version: ProfileVersion::default(),
            abi: AbiProfile::GateSurface,
            compatibility: CompatibilityMode::LegacySupport,
            features: FeaturePolicy {
                allow_debug_symbols: true,
                allow_f64_math: true,
                allow_gate_surface: true,
                allow_logos_surface: true,
            },
            capabilities: CapabilityExpectations::permissive(),
            aliases: AliasTable::new(),
        }
    }

    /// Makes `raw` an alias of `canonical`, replacing an earlier one.
    pub fn add_alias(&mut self, raw: &str, canonical: &str)
        ensures
            final(self).aliases@ == old(self).aliases@.insert(raw@, canonical@),
            final(self).identity == old(self).identity,
            final(self).version == old(self).version,
            final(self).abi == old(self).abi,
            final(self).compatibility == old(self).compatibility,
            final(self).features == old(self).features,
            final(self).capabilities == old(self).capabilities,
    {
        self.aliases.insert(raw, canonical);
    }

    /// The tokens of `input`, each replaced by its canonical token when it
    /// is an alias, joined by single spaces.
    pub fn normalize(&self, input: &str) -> (out: String)
        ensures
            out@ == joined(self.aliases@, lex(input@)),
    {
        let chars = chars_of(input);
        let spans = lex_spans(&chars);
        let ghost toks = lex(input@);
        let mut out = String::new();
        if spans.len() == 0 {
            assert(out@ =~= joined(self.aliases@, toks));
            return out;
        }
        let mut k: usize = 0;
        while k < spans.len()
            invariant
                chars@ == input@,
                span_texts(chars@, spans@) == toks,
                spans_in(chars@, spans@),
                k <= spans@.len(),
                spans@.len() == toks.len(),
                out@ == joined(self.aliases@, toks.take(k as int)),
            decreases spans@.len() - k,
        {
            let (a, b) = spans[k];
            assert(span_texts(chars@, spans@)[k as int] == chars@.subrange(a as int, b as int));
            let tok = input.substring_char(a, b);
            let ghost prefix = out@;
            if k > 0 {
                proof {
                    reveal_strlit(" ");
                }
                out.append(" ");
            }
            match self.aliases.get(tok) {
                Some(mapped) => out.append(mapped.as_str()),
                None => out.append(tok),
            }
            proof {
                let t2 = toks.take(k + 1);
                assert(t2.drop_last() =~= toks.take(k as int));
                assert(t2.last() == tok@);
                if k == 0 {
                    assert(prefix =~= Seq::<char>::empty());
                }
            }
            k = k + 1;
        }
        assert(toks.take(k as int) =~= toks);
        out
    }
}

/// One example for training: a line in the dialect and its canonical
/// form.
#[derive(Debug, Clone, Copy)]
pub struct TrainingSample<'a> {
    pub input: &'a str,
    pub target: &'a str,
}

/// Whether `c` is an ASCII letter, digit or underscore.
fn is_word_character(c: char) -> (b: bool)
    ensures
        b == is_word_char(c),
{
    ('0' <= c && c <= '9') || ('a' <= c && c <= 'z') || ('A' <= c && c <= 'Z') || c == '_'
}

/// Whether `tok` may be learnt as an alias spelling.
pub fn is_alias_input_token(tok: &str) -> (b: bool)
    ensures
        b == is_alias_input(tok@),
{
    let cs = chars_of(tok);
    if cs.len() == 0 {
        return false;
    }
    let mut i: usize = 0;
    while i < cs.len()
        invariant
            cs@ == tok@,
            i <= cs@.len(),
            forall|j: int| 0 <= j < i ==> is_word_char(#[trigger] cs@[j]),
        decreases cs@.len() - i,
    {
        if !is_word_character(cs[i]) {
            return false;
        }
        i = i + 1;
    }
    true
}

/// Whether `tok` is a canonical token that an alias may stand for.
pub fn is_supported_canonical_token(tok: &str) -> (b: bool)
    ensures
        b == is_supported_canonical(tok@),
{
    let cs = chars_of(tok);
    if cs.len() != 1 {
        return false;
    }
    let c = cs[0];
    c == '!' || c == '&' || c == '|' || c == '^' || c == 'N' || c == 'F' || c == 'T' || c == 'S'
}

/// Whether `raw` may be learnt as an alias of `canonical`.
pub fn can_learn_alias(raw: &str, canonical: &str) -> (b: bool)
    ensures
        b == can_learn(raw@, canonical@),
{
    is_alias_input_token(raw) && is_supported_canonical_token(canonical)
}

/// Learns the aliases that one example teaches.
fn train_sample(aliases: &mut AliasTable, sample: TrainingSample)
    ensures
        final(aliases)@ == learn_sample(old(aliases)@, sample.input@, sample.target@),
{
    let in_chars = chars_of(sample.input);
    let raw_spans = lex_spans(&in_chars);
    let tgt_chars = chars_of(sample.target);
    let tgt_spans = lex_spans(&tgt_chars);
    let ghost raws = lex(sample.input@);
    let ghost canons = lex(sample.target@);
    if raw_spans.len() != tgt_spans.len() {
        return;
    }
    let mut k: usize = 0;
    while k < raw_spans.len()
        invariant
            in_chars@ == sample.input@,
            tgt_chars@ == sample.target@,
            span_texts(in_chars@, raw_spans@) == raws,
            span_texts(tgt_chars@, tgt_spans@) == canons,
            spans_in(in_chars@, raw_spans@),
            spans_in(tgt_chars@, tgt_spans@),
            raw_spans@.len() == tgt_spans@.len(),
            raws.len() == raw_spans@.len(),
            canons.len() == tgt_spans@.len(),
            k <= raw_spans@.len(),
            aliases@ == learn_pairs(old(aliases)@, raws, canons, k as int),
        decreases raw_spans@.len() - k,
    {
        let (a, b) = raw_spans[k];
        let (c, d) = tgt_spans[k];
        assert(raws[k as int] == in_chars@.subrange(a as int, b as int));
        assert(canons[k as int] == tgt_chars@.subrange(c as int, d as int));
        let raw = sample.input.substring_char(a, b);
        let canonical = sample.target.substring_char(c, d);
        if !str_eq(raw, canonical) && can_learn_alias(raw, canonical) {
            aliases.insert_if_absent(raw, canonical);
        }
        k = k + 1;
    }
}

/// Adds to `profile` the aliases that the examples teach, in order; an
/// alias learnt earlier, or set before, is kept.
pub fn train_profile_in_place(profile: &mut ParserProfile, samples: &[TrainingSample])
    ensures
        final(profile).aliases@ == learn_samples(old(profile).aliases@, samples@, samples@.len() as int),
        final(profile).identity == old(profile).identity,
        final(profile).version == old(profile).version,
        final(profile).abi == old(profile).abi,
        final(profile).compatibility == old(profile).compatibility,
        final(profile).features == old(profile).features,
        final(profile).capabilities == old(profile).capabilities,
{
    let mut i: usize = 0;
    while i < samples.len()
        invariant
            i <= samples@.len(),
            profile.aliases@ == learn_samples(old(profile).aliases@, samples@, i as int),
            profile.identity == old(profile).identity,
            profile.version == old(profile).version,
            profile.abi == old(profile).abi,
            profile.compatibility == old(profile).compatibility,
            profile.features == old(profile).features,
            profile.capabilities == old(profile).capabilities,
        decreases samples@.len() - i,
    {
        train_sample(&mut profile.aliases, samples[i]);
        i = i + 1;
    }
}

/// The core default profile with the aliases that the examples teach.
pub fn train_profile(samples: &[TrainingSample]) -> (p: ParserProfile)
    ensures
        p.identity@ == "semantic.core"@,
        p.version == (ProfileVersion { major: 1, minor: 0 }),
        p.abi == AbiProfile::Core,
        p.compatibility == CompatibilityMode::Strict,
        p.features == (FeaturePolicy {
            allow_debug_symbols: false,
            allow_f64_math: false,
            allow_gate_surface: false,
            allow_logos_surface: false,
        }),
        p.capabilities == (CapabilityExpectations {
            require_debug_symbols: false,
            require_f64_math: false,
            require_gate_surface: false,
        }),
        p.aliases@ == learn_samples(Map::empty(), samples@, samples@.len() as int),
{
    let mut profile = ParserProfile::default();
    train_profile_in_place(&mut profile, samples);
    profile
}

proof fn lemma_joined_plain(toks: Seq<Seq<char>>)
    ensures
        joined(Map::empty(), toks) == spaced(toks),
    decreases toks.len(),
{
    if toks.len() >= 2 {
        let rest = toks.drop_first();
        lemma_joined_plain(toks.drop_last());
        lemma_joined_plain(rest);
        if toks.len() == 2 {
            assert(toks.drop_last().len() == 1);
            assert(rest.len() == 1 && rest[0] == toks.last());
        } else {
            lemma_spaced_last(toks);
        }
    }
}

proof fn lemma_spaced_last(toks: Seq<Seq<char>>)
    requires
        toks.len() >= 2,
    ensures
        spaced(toks) == spaced(toks.drop_last()) + seq![' '] + toks.last(),
    decreases toks.len(),
{
    let rest = toks.drop_first();
    if toks.len() == 2 {
        assert(rest.len() == 1 && rest[0] == toks[1]);
        assert(toks.drop_last().len() == 1 && toks.drop_last()[0] == toks[0]);
        assert(spaced(rest) == toks[1]);
        assert(spaced(toks.drop_last()) == toks[0]);
    } else {
        lemma_spaced_last(rest);
        assert(rest.drop_last() =~= toks.drop_last().drop_first());
        assert(rest.last() == toks.last());
        assert(toks.drop_last()[0] == toks[0]);
        assert(toks.drop_last().len() >= 2);
        let a = toks[0];
        let b = spaced(rest.drop_last());
        let c = toks.last();
        assert(spaced(toks.drop_last()) == a + seq![' '] + b);
        assert(spaced(toks) == a + seq![' '] + (b + seq![' '] + c));
        assert(a + seq![' '] + (b + seq![' '] + c) =~= (a + seq![' '] + b) + seq![' '] + c);
    }
}

/// Law: for a profile without aliases normalising is idempotent; the
/// normal form of a normal form is itself.
pub proof fn lemma_normalize_idempotent(s: Seq<char>)
    ensures
        joined(Map::empty(), lex(joined(Map::empty(), lex(s)))) == joined(Map::empty(), lex(s)),
{
    lemma_joined_plain(lex(s));
    lemma_lex_idempotent(s);
    lemma_joined_plain(lex(spaced(lex(s))));
}

} // verus!
