//! The token lexer that parser profiles normalise and learn from.
//!
//! Whitespace separates tokens, `(`, `)`, `!`, `&`, `|`, `^` and `=` are
//! tokens of one character each, and `#` or `//` ends the input. Every
//! other run of characters is one token.
use vstd::prelude::*;

verus! {

/// ASCII whitespace: space, tab, line feed, form feed, carriage return.
pub open spec fn is_ws(c: char) -> bool {
    c == ' ' || c == '\t' || c == '\n' || c == '\x0C' || c == '\r'
}

/// The characters that form a token on their own.
pub open spec fn is_single(c: char) -> bool {
    c == '(' || c == ')' || c == '!' || c == '&' || c == '|' || c == '^' || c == '='
}

/// Whether a `//` starts at position `i` of `s`.
pub open spec fn slash_pair_at(s: Seq<char>, i: int) -> bool {
    let n = s.len();
    i + 1 < n && s[i] == '/' && s[i + 1] == '/'
}

/// Whether the character at `j` ends a word that runs up to it.
pub open spec fn stops_word(s: Seq<char>, j: int) -> bool {
    is_ws(s[j]) || is_single(s[j]) || s[j] == '#' || slash_pair_at(s, j)
}

/// The end of the word whose rest starts at `j`.
pub open spec fn word_end(s: Seq<char>, j: int) -> int
    decreases s.len() - j,
{
    if j < 0 || j >= s.len() || stops_word(s, j) {
        j
    } else {
        word_end(s, j + 1)
    }
}

/// The tokens of `s` from position `i` on.
pub open spec fn lex_from(s: Seq<char>, i: int) -> Seq<Seq<char>>
    decreases s.len() - i,
{
    if i < 0 || i >= s.len() {
        Seq::empty()
    } else if is_ws(s[i]) {
        lex_from(s, i + 1)
    } else if s[i] == '#' || slash_pair_at(s, i) {
        Seq::empty()
    } else if is_single(s[i]) {
        seq![s.subrange(i, i + 1)] + lex_from(s, i + 1)
    } else {
        let j = word_end(s, i + 1);
        if j <= i || j > s.len() {
            Seq::empty()
        } else {
            seq![s.subrange(i, j)] + lex_from(s, j)
        }
    }
}

/// The tokens of `s`.
pub open spec fn lex(s: Seq<char>) -> Seq<Seq<char>> {
    lex_from(s, 0)
}

/// The text of each span of `s`.
pub open spec fn span_texts(s: Seq<char>, spans: Seq<(usize, usize)>) -> Seq<Seq<char>> {
    spans.map_values(|p: (usize, usize)| s.subrange(p.0 as int, p.1 as int))
}

/// Whether every span lies within `s` and is not empty.
pub open spec fn spans_in(s: Seq<char>, spans: Seq<(usize, usize)>) -> bool {
    forall|k: int| 0 <= k < spans.len() ==> #[trigger] spans[k].0 < spans[k].1 <= s.len()
}

proof fn lemma_word_end_bounds(s: Seq<char>, j: int)
    requires
        0 <= j <= s.len(),
    ensures
        j <= word_end(s, j) <= s.len(),
    decreases s.len() - j,
{
    if j < s.len() && !stops_word(s, j) {
        lemma_word_end_bounds(s, j + 1);
    }
}

fn is_ws_char(c: char) -> (b: bool)
    ensures
        b == is_ws(c),
{
    c == ' ' || c == '\t' || c == '\n' || c == '\x0C' || c == '\r'
}

/// Whether `c` forms a token on its own.
pub fn is_single_char_token(c: char) -> (b: bool)
    ensures
        b == is_single(c),
{
    c == '(' || c == ')' || c == '!' || c == '&' || c == '|' || c == '^' || c == '='
}

fn slash_pair(s: &Vec<char>, i: usize) -> (b: bool)
    requires
        i < s@.len(),
    ensures
        b == slash_pair_at(s@, i as int),
{
    let n = s.len();
    i + 1 < n && s[i] == '/' && s[i + 1] == '/'
}

/// The spans, in character positions, of the tokens of `s`.
pub fn lex_spans(s: &Vec<char>) -> (spans: Vec<(usize, usize)>)
    ensures
        span_texts(s@, spans@) == lex(s@),
        spans_in(s@, spans@),
{
    let mut out: Vec<(usize, usize)> = Vec::new();
    let mut i: usize = 0;
    let n = s.len();
    loop
        invariant
            n == s@.len(),
            i <= n,
            span_texts(s@, out@) + lex_from(s@, i as int) == lex(s@),
            spans_in(s@, out@),
        ensures
            span_texts(s@, out@) == lex(s@),
            spans_in(s@, out@),
        decreases n - i,
    {
        let ghost before = out@;
        if i >= n {
            assert(lex_from(s@, i as int) == Seq::<Seq<char>>::empty());
            assert(span_texts(s@, out@) + Seq::<Seq<char>>::empty() =~= span_texts(s@, out@));
            break;
        }
        let c = s[i];
        if is_ws_char(c) {
            i = i + 1;
            continue;
        }
        if slash_pair(s, i) {
            assert(lex_from(s@, i as int) == Seq::<Seq<char>>::empty());
            assert(span_texts(s@, out@) + Seq::<Seq<char>>::empty() =~= span_texts(s@, out@));
            break;
        }
        if c == '#' {
            assert(lex_from(s@, i as int) == Seq::<Seq<char>>::empty());
            assert(span_texts(s@, out@) + Seq::<Seq<char>>::empty() =~= span_texts(s@, out@));
            break;
        }
        if is_single_char_token(c) {
            out.push((i, i + 1));
            proof {
                assert(span_texts(s@, out@) =~= span_texts(s@, before).push(
                    s@.subrange(i as int, i + 1),
                ));
                assert(span_texts(s@, out@) + lex_from(s@, i + 1) =~= span_texts(s@, before) + (
                seq![s@.subrange(i as int, i + 1)] + lex_from(s@, i + 1)));
            }
            i = i + 1;
            continue;
        }
        let start = i;
        i = i + 1;
        while i < n
            invariant
                n == s@.len(),
                start < i <= n,
                word_end(s@, start + 1) == word_end(s@, i as int),
            ensures
                start < i <= n,
                word_end(s@, start + 1) == word_end(s@, i as int),
                i == n || stops_word(s@, i as int),
            decreases n - i,
        {
            let d = s[i];
            if is_ws_char(d) || is_single_char_token(d) || d == '#' {
                break;
            }
            if slash_pair(s, i) {
                break;
            }
            i = i + 1;
        }
        proof {
            assert(word_end(s@, i as int) == i);
            lemma_word_end_bounds(s@, start + 1);
        }
        out.push((start, i));
        proof {
            assert(span_texts(s@, out@) =~= span_texts(s@, before).push(
                s@.subrange(start as int, i as int),
            ));
            assert(span_texts(s@, out@) + lex_from(s@, i as int) =~= span_texts(s@, before) + (
            seq![s@.subrange(start as int, i as int)] + lex_from(s@, i as int)));
        }
    }
    out
}

/// A token as the lexer gives it: one single-character token, or a
/// non-empty word without whitespace, single-character tokens, `#` or `//`.
pub open spec fn good_token(t: Seq<char>) -> bool {
    ||| t.len() == 1 && is_single(t[0])
    ||| t.len() > 0 && forall|k: int|
        0 <= k < t.len() ==> !is_ws(#[trigger] t[k]) && !is_single(t[k]) && t[k] != '#' && !(k + 1
            < t.len() && t[k] == '/' && t[k + 1] == '/')
}

/// The tokens `toks` joined by single spaces.
pub open spec fn spaced(toks: Seq<Seq<char>>) -> Seq<char>
    decreases toks.len(),
{
    if toks.len() == 0 {
        Seq::empty()
    } else if toks.len() == 1 {
        toks[0]
    } else {
        toks[0] + seq![' '] + spaced(toks.drop_first())
    }
}

proof fn lemma_word_end_shift(p: Seq<char>, r: Seq<char>, j: int)
    requires
        0 <= j <= r.len(),
    ensures
        word_end(p + r, p.len() + j) == p.len() + word_end(r, j),
    decreases r.len() - j,
{
    let x = p + r;
    if j < r.len() {
        assert(x[p.len() + j] == r[j]);
        if j + 1 < r.len() {
            assert(x[p.len() + j + 1] == r[j + 1]);
        }
        assert(slash_pair_at(x, p.len() + j) == slash_pair_at(r, j));
        assert(stops_word(x, p.len() + j) == stops_word(r, j));
        if !stops_word(r, j) {
            lemma_word_end_shift(p, r, j + 1);
        }
    }
}

proof fn lemma_lex_shift(p: Seq<char>, r: Seq<char>, i: int)
    requires
        0 <= i <= r.len(),
    ensures
        lex_from(p + r, p.len() + i) == lex_from(r, i),
    decreases r.len() - i,
{
    let x = p + r;
    if i < r.len() {
        assert(x[p.len() + i] == r[i]);
        if i + 1 < r.len() {
            assert(x[p.len() + i + 1] == r[i + 1]);
        }
        assert(slash_pair_at(x, p.len() + i) == slash_pair_at(r, i));
        if is_ws(r[i]) {
            lemma_lex_shift(p, r, i + 1);
        } else if r[i] == '#' || slash_pair_at(r, i) {
        } else if is_single(r[i]) {
            lemma_lex_shift(p, r, i + 1);
            assert(x.subrange(p.len() + i, p.len() + i + 1) =~= r.subrange(i, i + 1));
        } else {
            lemma_word_end_shift(p, r, i + 1);
            lemma_word_end_bounds(r, i + 1);
            let j = word_end(r, i + 1);
            if j > i && j <= r.len() {
                lemma_lex_shift(p, r, j);
                assert(x.subrange(p.len() + i, p.len() + j) =~= r.subrange(i, j));
            }
        }
    }
}

proof fn lemma_word_end_at_token_end(t: Seq<char>, r: Seq<char>, k: int)
    requires
        good_token(t),
        !(t.len() == 1 && is_single(t[0])),
        1 <= k <= t.len(),
        r.len() == 0 || is_ws(r[0]),
    ensures
        word_end(t + r, k) == t.len(),
    decreases t.len() - k,
{
    let x = t + r;
    if k < t.len() {
        assert(x[k] == t[k]);
        assert(!is_ws(t[k]) && !is_single(t[k]) && t[k] != '#');
        if k + 1 < t.len() {
            assert(x[k + 1] == t[k + 1]);
        } else if k + 1 < x.len() {
            assert(x[k + 1] == r[0]);
        }
        assert(!slash_pair_at(x, k));
        lemma_word_end_at_token_end(t, r, k + 1);
    } else if k < x.len() {
        assert(x[k] == r[0]);
    }
}

proof fn lemma_lex_good_head(t: Seq<char>, r: Seq<char>)
    requires
        good_token(t),
        r.len() == 0 || is_ws(r[0]),
    ensures
        lex_from(t + r, 0) == seq![t] + lex_from(t + r, t.len() as int),
{
    let x = t + r;
    assert(x[0] == t[0]);
    if t.len() == 1 && is_single(t[0]) {
        assert(x.subrange(0, 1) =~= t);
    } else {
        assert(!is_ws(t[0]) && !is_single(t[0]) && t[0] != '#');
        if t.len() > 1 {
            assert(x[1] == t[1]);
        } else if x.len() > 1 {
            assert(x[1] == r[0]);
        }
        assert(!slash_pair_at(x, 0));
        lemma_word_end_at_token_end(t, r, 1);
        assert(x.subrange(0, t.len() as int) =~= t);
    }
}

/// Lexing tokens joined by single spaces gives the tokens back.
pub proof fn lemma_lex_spaced(toks: Seq<Seq<char>>)
    requires
        forall|k: int| 0 <= k < toks.len() ==> good_token(#[trigger] toks[k]),
    ensures
        lex(spaced(toks)) == toks,
    decreases toks.len(),
{
    if toks.len() == 0 {
        assert(lex(spaced(toks)) =~= toks);
    } else if toks.len() == 1 {
        let t = toks[0];
        assert(good_token(t));
        lemma_lex_good_head(t, Seq::empty());
        assert(t + Seq::<char>::empty() =~= t);
        assert(lex(spaced(toks)) =~= toks);
    } else {
        let t = toks[0];
        let rest = toks.drop_first();
        assert(good_token(t));
        assert forall|k: int| 0 <= k < rest.len() implies good_token(#[trigger] rest[k]) by {
            assert(rest[k] == toks[k + 1]);
        }
        lemma_lex_spaced(rest);
        let j = spaced(rest);
        let r = seq![' '] + j;
        assert(t + seq![' '] + j =~= t + r);
        lemma_lex_good_head(t, r);
        lemma_lex_shift(t, r, 0);
        assert(lex_from(r, 0) == lex_from(r, 1));
        lemma_lex_shift(seq![' '], j, 0);
        assert(lex(spaced(toks)) =~= seq![t] + rest);
        assert(seq![t] + rest =~= toks);
    }
}

proof fn lemma_word_end_stops(s: Seq<char>, j: int, k: int)
    requires
        0 <= j <= k < word_end(s, j),
    ensures
        k < s.len() && !stops_word(s, k),
    decreases k - j,
{
    if j < k {
        lemma_word_end_stops(s, j + 1, k);
    }
}

/// Every token the lexer gives is a single-character token or a word.
pub proof fn lemma_lex_tokens_good(s: Seq<char>, i: int)
    requires
        0 <= i,
    ensures
        forall|k: int| 0 <= k < lex_from(s, i).len() ==> good_token(#[trigger] lex_from(s, i)[k]),
    decreases s.len() - i,
{
    if i < s.len() {
        if is_ws(s[i]) {
            lemma_lex_tokens_good(s, i + 1);
        } else if s[i] == '#' || slash_pair_at(s, i) {
        } else if is_single(s[i]) {
            lemma_lex_tokens_good(s, i + 1);
            let t = s.subrange(i, i + 1);
            assert(good_token(t));
            assert forall|k: int| 0 <= k < lex_from(s, i).len() implies good_token(#[trigger] lex_from(s, i)[k]) by {
                if k > 0 {
                    assert(lex_from(s, i)[k] == lex_from(s, i + 1)[k - 1]);
                }
            }
        } else {
            lemma_word_end_bounds(s, i + 1);
            let j = word_end(s, i + 1);
            if j > i && j <= s.len() {
                lemma_lex_tokens_good(s, j);
                let t = s.subrange(i, j);
                assert forall|k: int| 0 <= k < t.len() implies !is_ws(#[trigger] t[k]) && !is_single(t[k]) && t[k] != '#'
                    && !(k + 1 < t.len() && t[k] == '/' && t[k + 1] == '/') by {
                    if k > 0 {
                        lemma_word_end_stops(s, i + 1, i + k);
                    }
                    if k + 1 < t.len() {
                        lemma_word_end_stops(s, i + 1, i + k + 1);
                        if k > 0 {
                            lemma_word_end_stops(s, i + 1, i + k);
                        }
                    }
                }
                assert(good_token(t));
                assert forall|k: int| 0 <= k < lex_from(s, i).len() implies good_token(#[trigger] lex_from(s, i)[k]) by {
                    if k > 0 {
                        assert(lex_from(s, i)[k] == lex_from(s, j)[k - 1]);
                    }
                }
            }
        }
    }
}

/// Lexing is idempotent: lexing the tokens of `s` joined by single spaces
/// gives the tokens of `s` again.
pub proof fn lemma_lex_idempotent(s: Seq<char>)
    ensures
        lex(spaced(lex(s))) == lex(s),
{
    lemma_lex_tokens_good(s, 0);
    lemma_lex_spaced(lex(s));
}

} // verus!
