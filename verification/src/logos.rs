//! Logos laws as the lowering sees them: each law's name, priority and
//! number of `when` clauses, listed from the highest priority down.
use vstd::prelude::*;

verus! {

/// A parsed law: its name, its priority and how many `when` clauses it has.
#[derive(Debug, Clone, PartialEq, Eq)]
pub struct LogosLaw {
    pub name: String,
    pub priority: u32,
    pub when_count: usize,
}

/// A lowered law.
#[derive(Debug, Clone, PartialEq, Eq)]
pub struct LogosIrLaw {
    pub name: String,
    pub priority: u32,
    pub when_count: usize,
}

/// Law `a` is listed before law `b`: a higher priority comes first, and
/// laws of equal priority keep their order.
pub open spec fn law_before(ps: Seq<u32>, a: int, b: int) -> bool {
    ps[a] > ps[b] || (ps[a] == ps[b] && a < b)
}

/// `order` lists each of the laws with priorities `ps` once, highest
/// priority first and in their own order among equals.
pub open spec fn in_priority_order(ps: Seq<u32>, order: Seq<int>) -> bool {
    &&& order.len() == ps.len()
    &&& forall|k: int| 0 <= k < order.len() ==> 0 <= #[trigger] order[k] < ps.len()
    &&& forall|i: int, j: int| 0 <= i < j < order.len() ==> law_before(ps, #[trigger] order[i], #[trigger] order[j])
}

/// The priorities of the laws, in their order.
pub open spec fn priorities(laws: Seq<LogosLaw>) -> Seq<u32> {
    Seq::new(laws.len(), |k: int| laws[k].priority)
}

fn priority_order(laws: &[LogosLaw]) -> (order: Vec<usize>)
    ensures
        in_priority_order(priorities(laws@), Seq::new(order@.len(), |k: int| order@[k] as int)),
{
    let ghost ps = priorities(laws@);
    let mut order: Vec<usize> = Vec::new();
    let mut n: usize = 0;
    while n < laws.len()
        invariant
            n <= laws@.len(),
            ps == priorities(laws@),
            order@.len() == n,
            forall|k: int| 0 <= k < n ==> #[trigger] order@[k] < n,
            forall|i: int, j: int|
                0 <= i < j < n ==> law_before(ps, #[trigger] order@[i] as int, #[trigger] order@[j] as int),
        decreases laws@.len() - n,
    {
        let mut p: usize = 0;
        while p < order.len() && laws[order[p]].priority >= laws[n].priority
            invariant
                p <= order@.len(),
                order@.len() == n,
                n < laws@.len(),
                ps == priorities(laws@),
                forall|k: int| 0 <= k < n ==> #[trigger] order@[k] < n,
                forall|k: int| 0 <= k < p ==> law_before(ps, #[trigger] order@[k] as int, n as int),
            decreases order@.len() - p,
        {
            p = p + 1;
        }
        proof {
            assert forall|k: int| p <= k < n implies law_before(ps, n as int, #[trigger] order@[k] as int) by {
                let q = order@[p as int] as int;
                assert(ps[q] < ps[n as int]);
                if k > p {
                    assert(law_before(ps, q, order@[k] as int));
                }
            }
        }
        let ghost before = order@;
        order.insert(p, n);
        proof {
            assert forall|i: int, j: int| 0 <= i < j < n + 1 implies law_before(
                ps,
                #[trigger] order@[i] as int,
                #[trigger] order@[j] as int,
            ) by {
                if j < p {
                    assert(order@[i] == before[i] && order@[j] == before[j]);
                } else if j == p {
                    assert(order@[i] == before[i]);
                } else if i < p {
                    assert(order@[i] == before[i] && order@[j] == before[j - 1]);
                } else if i == p {
                    assert(order@[j] == before[j - 1]);
                } else {
                    assert(order@[i] == before[i - 1] && order@[j] == before[j - 1]);
                }
            }
        }
        n = n + 1;
    }
    let ghost out = Seq::new(order@.len(), |k: int| order@[k] as int);
    assert forall|i: int, j: int| 0 <= i < j < out.len() implies law_before(ps, #[trigger] out[i], #[trigger] out[j]) by {
        assert(law_before(ps, order@[i] as int, order@[j] as int));
    }
    order
}

/// The laws lowered, from the highest priority down; laws of equal
/// priority keep their order.
pub fn lower_logos_laws_to_ir(laws: &[LogosLaw]) -> (r: Vec<LogosIrLaw>)
    ensures
        exists|order: Seq<int>|
            in_priority_order(priorities(laws@), order) && r@.len() == laws@.len() && forall|k: int|
                0 <= k < r@.len() ==> (#[trigger] r@[k]).name@ == laws@[order[k]].name@ && r@[k].priority
                    == laws@[order[k]].priority && r@[k].when_count == laws@[order[k]].when_count,
{
    let order = priority_order(laws);
    let ghost ord = Seq::new(order@.len(), |k: int| order@[k] as int);
    let mut out: Vec<LogosIrLaw> = Vec::new();
    let mut k: usize = 0;
    while k < order.len()
        invariant
            k <= order@.len(),
            ord == Seq::new(order@.len(), |k: int| order@[k] as int),
            in_priority_order(priorities(laws@), ord),
            out@.len() == k,
            forall|j: int|
                0 <= j < k ==> (#[trigger] out@[j]).name@ == laws@[ord[j]].name@ && out@[j].priority
                    == laws@[ord[j]].priority && out@[j].when_count == laws@[ord[j]].when_count,
        decreases order@.len() - k,
    {
        let i = order[k];
        assert(ord[k as int] == i as int);
        let law = &laws[i];
        out.push(LogosIrLaw { name: law.name.clone(), priority: law.priority, when_count: law.when_count });
        k = k + 1;
    }
    out
}

/// Law: the priority order of a list of laws is unique, so the lowered
/// list is determined by the laws.
pub proof fn lemma_priority_order_unique(ps: Seq<u32>, o1: Seq<int>, o2: Seq<int>)
    requires
        in_priority_order(ps, o1),
        in_priority_order(ps, o2),
    ensures
        o1 == o2,
{
    let lt = |a: int, b: int| law_before(ps, a, b);
    assert forall|i: int, j: int| 0 <= i < j < o1.len() implies #[trigger] lt(o1[i], o1[j]) by {
        assert(law_before(ps, o1[i], o1[j]));
    }
    assert forall|i: int, j: int| 0 <= i < j < o2.len() implies #[trigger] lt(o2[i], o2[j]) by {
        assert(law_before(ps, o2[i], o2[j]));
    }
    crate::order::lemma_ordered_indices_unique(o1, o2, ps.len() as int, lt);
}

} // verus!
