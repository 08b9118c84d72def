//! A finite map from alias spellings to canonical tokens.
use vstd::prelude::*;
use crate::text::str_eq;

verus! {

/// The map that a list of entries with distinct keys stands for.
pub open spec fn alias_map(e: Seq<(String, String)>) -> Map<Seq<char>, Seq<char>>
    decreases e.len(),
{
    if e.len() == 0 {
        Map::empty()
    } else {
        alias_map(e.drop_last()).insert(e.last().0@, e.last().1@)
    }
}

/// Whether no key occurs twice among the entries.
pub open spec fn keys_distinct(e: Seq<(String, String)>) -> bool {
    forall|i: int, j: int| 0 <= i < j < e.len() ==> #[trigger] e[i].0@ != #[trigger] e[j].0@
}

proof fn lemma_map_at(e: Seq<(String, String)>, k: int)
    requires
        keys_distinct(e),
        0 <= k < e.len(),
    ensures
        alias_map(e).contains_key(e[k].0@),
        alias_map(e)[e[k].0@] == e[k].1@,
    decreases e.len(),
{
    if k < e.len() - 1 {
        let d = e.drop_last();
        assert(d[k] == e[k]);
        assert(keys_distinct(d)) by {
            assert forall|i: int, j: int| 0 <= i < j < d.len() implies #[trigger] d[i].0@
                != #[trigger] d[j].0@ by {
                assert(d[i] == e[i] && d[j] == e[j]);
            }
        }
        lemma_map_at(d, k);
        assert(e[k].0@ != e[e.len() - 1].0@);
    }
}

proof fn lemma_map_absent(e: Seq<(String, String)>, key: Seq<char>)
    requires
        forall|i: int| 0 <= i < e.len() ==> #[trigger] e[i].0@ != key,
    ensures
        !alias_map(e).contains_key(key),
    decreases e.len(),
{
    if e.len() > 0 {
        let d = e.drop_last();
        assert forall|i: int| 0 <= i < d.len() implies #[trigger] d[i].0@ != key by {
            assert(d[i] == e[i]);
        }
        lemma_map_absent(d, key);
        assert(e[e.len() - 1].0@ != key);
    }
}

proof fn lemma_distinct_drop_last(e: Seq<(String, String)>)
    requires
        keys_distinct(e),
        e.len() > 0,
    ensures
        keys_distinct(e.drop_last()),
{
    let d = e.drop_last();
    assert forall|i: int, j: int| 0 <= i < j < d.len() implies #[trigger] d[i].0@
        != #[trigger] d[j].0@ by {
        assert(d[i] == e[i] && d[j] == e[j]);
    }
}

proof fn lemma_map_update(e: Seq<(String, String)>, k: int, v: String)
    requires
        keys_distinct(e),
        0 <= k < e.len(),
    ensures
        alias_map(e.update(k, (e[k].0, v))) =~= alias_map(e).insert(e[k].0@, v@),
        keys_distinct(e.update(k, (e[k].0, v))),
    decreases e.len(),
{
    let u = e.update(k, (e[k].0, v));
    assert(keys_distinct(u)) by {
        assert forall|i: int, j: int| 0 <= i < j < u.len() implies #[trigger] u[i].0@
            != #[trigger] u[j].0@ by {
            assert(u[i].0 == e[i].0 && u[j].0 == e[j].0);
        }
    }
    let d = e.drop_last();
    if k == e.len() - 1 {
        assert(u.drop_last() =~= d);
    } else {
        lemma_distinct_drop_last(e);
        assert(d[k] == e[k]);
        lemma_map_update(d, k, v);
        assert(u.drop_last() =~= d.update(k, (d[k].0, v)));
        assert(u.last() == e.last());
        assert(e[k].0@ != e[e.len() - 1].0@);
    }
}

proof fn lemma_map_finite(e: Seq<(String, String)>)
    requires
        keys_distinct(e),
    ensures
        alias_map(e).dom().finite(),
        alias_map(e).dom().len() == e.len(),
    decreases e.len(),
{
    if e.len() > 0 {
        let d = e.drop_last();
        lemma_distinct_drop_last(e);
        lemma_map_finite(d);
        assert forall|i: int| 0 <= i < d.len() implies #[trigger] d[i].0@ != e.last().0@ by {
            assert(d[i] == e[i]);
        }
        lemma_map_absent(d, e.last().0@);
    }
}

/// `keys` lists the spellings of `m`, each once: as many as `m` has, no
/// spelling twice, each one in `m`, and every spelling of `m` among them.
pub open spec fn enumerates(keys: Seq<Seq<char>>, m: Map<Seq<char>, Seq<char>>) -> bool {
    &&& keys.len() == m.dom().len()
    &&& forall|a: int, b: int| 0 <= a < b < keys.len() ==> #[trigger] keys[a] != #[trigger] keys[b]
    &&& forall|k: int| 0 <= k < keys.len() ==> m.contains_key(#[trigger] keys[k])
    &&& forall|x: Seq<char>| #[trigger] m.contains_key(x) ==> keys.contains(x)
}

proof fn lemma_enumerates(e: Seq<(String, String)>)
    requires
        keys_distinct(e),
    ensures
        enumerates(e.map_values(|p: (String, String)| p.0@), alias_map(e)),
{
    let keys = e.map_values(|p: (String, String)| p.0@);
    lemma_map_finite(e);
    assert forall|a: int, b: int| 0 <= a < b < keys.len() implies #[trigger] keys[a] != #[trigger] keys[b] by {
        assert(e[a].0@ != e[b].0@);
    }
    assert forall|k: int| 0 <= k < keys.len() implies alias_map(e).contains_key(#[trigger] keys[k]) by {
        lemma_map_at(e, k);
    }
    assert forall|x: Seq<char>| #[trigger] alias_map(e).contains_key(x) implies keys.contains(x) by {
        if !keys.contains(x) {
            assert forall|i: int| 0 <= i < e.len() implies #[trigger] e[i].0@ != x by {
                if e[i].0@ == x {
                    assert(keys[i] == x);
                }
            }
            lemma_map_absent(e, x);
        }
    }
}

/// Aliases from a raw spelling to its canonical token; each spelling at
/// most once.
#[derive(Debug)]
pub struct AliasTable {
    entries: Vec<(String, String)>,
}

impl View for AliasTable {
    type V = Map<Seq<char>, Seq<char>>;

    closed spec fn view(&self) -> Map<Seq<char>, Seq<char>> {
        alias_map(self.entries@)
    }
}

impl AliasTable {
    #[verifier::type_invariant]
    spec fn spellings_distinct(&self) -> bool {
        keys_distinct(self.entries@)
    }

    /// The spellings of the table in its order of insertion.
    pub closed spec fn spellings(&self) -> Seq<Seq<char>> {
        self.entries@.map_values(|p: (String, String)| p.0@)
    }

    pub fn new() -> (t: Self)
        ensures
            t@ == Map::<Seq<char>, Seq<char>>::empty(),
    {
        AliasTable { entries: Vec::new() }
    }

    fn position(&self, key: &str) -> (r: Option<usize>)
        ensures
            match r {
                Some(k) => k < self.entries@.len() && self.entries@[k as int].0@ == key@,
                None => !self@.contains_key(key@),
            },
    {
        let mut i: usize = 0;
        while i < self.entries.len()
            invariant
                i <= self.entries@.len(),
                forall|j: int| 0 <= j < i ==> #[trigger] self.entries@[j].0@ != key@,
            decreases self.entries@.len() - i,
        {
            if str_eq(self.entries[i].0.as_str(), key) {
                return Some(i);
            }
            i = i + 1;
        }
        proof {
            lemma_map_absent(self.entries@, key@);
        }
        None
    }

    /// The canonical token of `key`, if it has one.
    pub fn get(&self, key: &str) -> (r: Option<&String>)
        ensures
            (r is Some) == self@.contains_key(key@),
            r matches Some(v) ==> v@ == self@[key@],
    {
        proof {
            use_type_invariant(self);
        }
        match self.position(key) {
            Some(k) => {
                proof {
                    lemma_map_at(self.entries@, k as int);
                }
                Some(&self.entries[k].1)
            },
            None => None,
        }
    }

    /// Sets the canonical token of `key` to `value`.
    pub fn insert(&mut self, key: &str, value: &str)
        ensures
            final(self)@ == old(self)@.insert(key@, value@),
    {
        proof {
            use_type_invariant(&*self);
        }
        let pos = self.position(key);
        let mut entries = Vec::new();
        std::mem::swap(&mut entries, &mut self.entries);
        let ghost e = entries@;
        match pos {
            Some(k) => {
                let old_key = entries[k].0.clone();
                entries.set(k, (old_key, value.to_owned()));
                proof {
                    assert(entries@ == e.update(k as int, (e[k as int].0, entries@[k as int].1)));
                    lemma_map_update(e, k as int, entries@[k as int].1);
                }
            },
            None => {
                entries.push((key.to_owned(), value.to_owned()));
                proof {
                    assert(entries@.drop_last() =~= e);
                    assert forall|i: int, j: int| 0 <= i < j < entries@.len() implies #[trigger] entries@[i].0@
                        != #[trigger] entries@[j].0@ by {
                        if j == e.len() {
                            assert(entries@[i] == e[i]);
                            if e[i].0@ == key@ {
                                lemma_map_at(e, i);
                            }
                        } else {
                            assert(entries@[i] == e[i] && entries@[j] == e[j]);
                        }
                    }
                }
            },
        }
        self.entries = entries;
    }

    /// Sets the canonical token of `key` to `value` unless `key` has one.
    pub fn insert_if_absent(&mut self, key: &str, value: &str)
        ensures
            final(self)@ == if old(self)@.contains_key(key@) {
                old(self)@
            } else {
                old(self)@.insert(key@, value@)
            },
    {
        match self.position(key) {
            Some(k) => {
                proof {
                    use_type_invariant(&*self);
                    lemma_map_at(self.entries@, k as int);
                }
            },
            None => self.insert(key, value),
        }
    }

    /// The number of aliases.
    pub fn len(&self) -> (n: usize)
        ensures
            self@.dom().finite(),
            n == self@.dom().len(),
            enumerates(self.spellings(), self@),
    {
        proof {
            use_type_invariant(self);
            lemma_map_finite(self.entries@);
            lemma_enumerates(self.entries@);
        }
        self.entries.len()
    }

    /// The alias at position `i` of the table's order of insertion.
    pub fn entry_at(&self, i: usize) -> (r: (&str, &str))
        requires
            i < self@.dom().len(),
        ensures
            self@.contains_key(r.0@),
            self@[r.0@] == r.1@,
            r.0@ == self.spellings()[i as int],
            enumerates(self.spellings(), self@),
    {
        proof {
            use_type_invariant(self);
            lemma_map_finite(self.entries@);
            lemma_map_at(self.entries@, i as int);
            lemma_enumerates(self.entries@);
        }
        (self.entries[i].0.as_str(), self.entries[i].1.as_str())
    }
}

impl Clone for AliasTable {
    fn clone(&self) -> (t: Self)
        ensures
            t@ == self@,
    {
        proof {
            use_type_invariant(self);
        }
        let mut out: Vec<(String, String)> = Vec::new();
        let mut i: usize = 0;
        while i < self.entries.len()
            invariant
                i <= self.entries@.len(),
                out@.len() == i,
                forall|j: int| 0 <= j < i ==> #[trigger] out@[j].0@ == self.entries@[j].0@ && out@[j].1@ == self.entries@[j].1@,
            decreases self.entries@.len() - i,
        {
            out.push((self.entries[i].0.clone(), self.entries[i].1.clone()));
            i = i + 1;
        }
        proof {
            lemma_same_views(out@, self.entries@);
        }
        AliasTable { entries: out }
    }
}

proof fn lemma_same_views(a: Seq<(String, String)>, b: Seq<(String, String)>)
    requires
        a.len() == b.len(),
        forall|j: int| 0 <= j < a.len() ==> #[trigger] a[j].0@ == b[j].0@ && a[j].1@ == b[j].1@,
    ensures
        alias_map(a) == alias_map(b),
        keys_distinct(b) ==> keys_distinct(a),
    decreases a.len(),
{
    if a.len() > 0 {
        lemma_same_views(a.drop_last(), b.drop_last());
        assert(a.last().0@ == b.last().0@);
    }
    if keys_distinct(b) {
        assert forall|i: int, j: int| 0 <= i < j < a.len() implies #[trigger] a[i].0@
            != #[trigger] a[j].0@ by {
            assert(b[i].0@ != b[j].0@);
        }
    }
}

} // verus!
