//! Orderings of indices: a list of the indices `0..n` that increases under
//! an asymmetric relation is the only such list.
use vstd::prelude::*;

verus! {

/// `o` lists `n` indices below `n`, each before the next under `lt`.
pub open spec fn ordered_indices(o: Seq<int>, n: int, lt: spec_fn(int, int) -> bool) -> bool {
    &&& o.len() == n
    &&& forall|k: int| 0 <= k < o.len() ==> 0 <= #[trigger] o[k] < n
    &&& forall|i: int, j: int| 0 <= i < j < o.len() ==> #[trigger] lt(o[i], o[j])
}

/// `lt` never holds both ways.
pub open spec fn asymmetric(lt: spec_fn(int, int) -> bool) -> bool {
    forall|a: int, b: int| #[trigger] lt(a, b) ==> !lt(b, a)
}

proof fn lemma_covers(o: Seq<int>, n: int, lt: spec_fn(int, int) -> bool)
    requires
        ordered_indices(o, n, lt),
        asymmetric(lt),
    ensures
        forall|v: int| 0 <= v < n ==> o.contains(v),
{
    assert(o.no_duplicates()) by {
        assert forall|i: int, j: int| 0 <= i < o.len() && 0 <= j < o.len() && i != j implies o[i] != o[j] by {
            if i < j {
                assert(lt(o[i], o[j]));
            } else {
                assert(lt(o[j], o[i]));
            }
        }
    }
    o.unique_seq_to_set();
    let r = vstd::set_lib::set_int_range(0, n);
    vstd::set_lib::lemma_int_range(0, n);
    assert(o.to_set().subset_of(r));
    vstd::set_lib::lemma_subset_equality(o.to_set(), r);
    assert forall|v: int| 0 <= v < n implies o.contains(v) by {
        assert(r.contains(v));
        assert(o.to_set().contains(v));
    }
}

proof fn lemma_agree_at(o1: Seq<int>, o2: Seq<int>, n: int, lt: spec_fn(int, int) -> bool, k: int)
    requires
        ordered_indices(o1, n, lt),
        ordered_indices(o2, n, lt),
        asymmetric(lt),
        0 <= k < n,
    ensures
        forall|j: int| 0 <= j <= k ==> o1[j] == o2[j],
    decreases k,
{
    if k > 0 {
        lemma_agree_at(o1, o2, n, lt, k - 1);
    }
    let a = o1[k];
    let b = o2[k];
    if a != b {
        lemma_covers(o1, n, lt);
        lemma_covers(o2, n, lt);
        assert(0 <= a < n && 0 <= b < n);
        assert(o2.contains(a));
        assert(o1.contains(b));
        let j = choose|j: int| 0 <= j < o2.len() && o2[j] == a;
        let i = choose|i: int| 0 <= i < o1.len() && o1[i] == b;
        if j < k {
            assert(o1[j] == o2[j]);
            assert(lt(o1[j], o1[k]));
        } else if i < k {
            assert(o1[i] == o2[i]);
            assert(lt(o2[i], o2[k]));
        } else {
            assert(lt(o2[k], o2[j]));
            assert(lt(o1[k], o1[i]));
        }
    }
}

/// Law: two lists of the indices `0..n`, each increasing under the same
/// asymmetric relation, are the same list.
pub proof fn lemma_ordered_indices_unique(o1: Seq<int>, o2: Seq<int>, n: int, lt: spec_fn(int, int) -> bool)
    requires
        ordered_indices(o1, n, lt),
        ordered_indices(o2, n, lt),
        asymmetric(lt),
    ensures
        o1 == o2,
{
    if n > 0 {
        lemma_agree_at(o1, o2, n, lt, n - 1);
    }
    assert(o1 =~= o2);
}

} // verus!
