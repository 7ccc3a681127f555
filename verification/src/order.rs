//! Evaluation order of a chain: rules by ascending priority, ties kept in
//! declaration order (a stable sort by priority).
//!
//! The order is described by what it is, not how it is computed: a listing
//! of every rule index once, strictly increasing in the key
//! (priority, declaration index). [`evaluation_order_is_unique`] shows
//! there is at most one such listing.

use vstd::prelude::*;

use crate::rule::Rule;

verus! {

/// Rule priorities in declaration order.
pub open spec fn priorities(rules: Seq<Rule>) -> Seq<u32> {
    rules.map_values(|r: Rule| r.priority)
}

/// Rule `i` runs before rule `j`: lower priority, or equal priority and
/// declared earlier.
pub open spec fn runs_before(prios: Seq<u32>, i: int, j: int) -> bool {
    prios[i] < prios[j] || (prios[i] == prios[j] && i < j)
}

/// `ord` lists every index of `prios` exactly once, in run order.
pub open spec fn is_evaluation_order(prios: Seq<u32>, ord: Seq<usize>) -> bool {
    &&& ord.len() == prios.len()
    &&& forall|k: int| 0 <= k < ord.len() ==> (#[trigger] ord[k]) < prios.len()
    &&& forall|i: usize| i < prios.len() ==> #[trigger] ord.contains(i)
    &&& forall|a: int, b: int|
        0 <= a < b < ord.len() ==> runs_before(prios, #[trigger] ord[a] as int, #[trigger] ord[b] as int)
}

/// The evaluation order of a chain with these priorities.
pub open spec fn evaluation_order(prios: Seq<u32>) -> Seq<usize> {
    choose|ord: Seq<usize>| is_evaluation_order(prios, ord)
}

/// There is only one evaluation order for given priorities.
pub proof fn evaluation_order_is_unique(prios: Seq<u32>, o1: Seq<usize>, o2: Seq<usize>)
    requires
        is_evaluation_order(prios, o1),
        is_evaluation_order(prios, o2),
    ensures
        o1 == o2,
{
    lemma_orders_agree_from(prios, o1, o2, 0);
    assert(o1 =~= o2);
}

/// Two evaluation orders that agree below position `i` agree everywhere.
proof fn lemma_orders_agree_from(prios: Seq<u32>, o1: Seq<usize>, o2: Seq<usize>, i: int)
    requires
        is_evaluation_order(prios, o1),
        is_evaluation_order(prios, o2),
        0 <= i <= o1.len(),
        forall|j: int| 0 <= j < i ==> o1[j] == o2[j],
    ensures
        forall|j: int| 0 <= j < o1.len() ==> o1[j] == o2[j],
    decreases o1.len() - i,
{
    if i < o1.len() {
        let a = o1[i];
        let b = o2[i];
        assert(o1[i] < prios.len());
        assert(o2[i] < prios.len());
        assert(o2.contains(a));
        assert(o1.contains(b));
        let ja = choose|k: int| 0 <= k < o2.len() && o2[k] == a;
        let jb = choose|k: int| 0 <= k < o1.len() && o1[k] == b;
        if a != b {
            if ja < i {
                assert(o1[ja] == a);
                assert(runs_before(prios, o1[ja] as int, o1[i] as int));
            }
            if jb < i {
                assert(o2[jb] == b);
                assert(runs_before(prios, o2[jb] as int, o2[i] as int));
            }
            assert(runs_before(prios, o2[i] as int, o2[ja] as int));
            assert(runs_before(prios, o1[i] as int, o1[jb] as int));
            assert(false);
        }
        lemma_orders_agree_from(prios, o1, o2, i + 1);
    }
}

/// First position from `k` on whose rule has a priority above `p`
/// (`o.len()` when there is none).
spec fn first_above(prios: Seq<u32>, o: Seq<usize>, p: u32, k: int) -> int
    decreases o.len() - k,
{
    if k >= o.len() {
        o.len() as int
    } else if prios[o[k] as int] > p {
        k
    } else {
        first_above(prios, o, p, k + 1)
    }
}

proof fn lemma_first_above(prios: Seq<u32>, o: Seq<usize>, p: u32, k: int)
    requires
        0 <= k <= o.len(),
        forall|q: int| 0 <= q < o.len() ==> (#[trigger] o[q]) < prios.len(),
    ensures
        k <= first_above(prios, o, p, k) <= o.len(),
        forall|q: int| k <= q < first_above(prios, o, p, k) ==> prios[#[trigger] o[q] as int] <= p,
        first_above(prios, o, p, k) < o.len() ==> prios[o[first_above(prios, o, p, k)] as int] > p,
    decreases o.len() - k,
{
    if k < o.len() && prios[o[k] as int] <= p {
        lemma_first_above(prios, o, p, k + 1);
    }
}

/// Every list of priorities that fits in memory has an evaluation order.
pub proof fn evaluation_order_exists(prios: Seq<u32>)
    requires
        prios.len() <= usize::MAX,
    ensures
        is_evaluation_order(prios, evaluation_order(prios)),
    decreases prios.len(),
{
    if prios.len() == 0 {
        assert(is_evaluation_order(prios, Seq::<usize>::empty()));
    } else {
        let n: usize = (prios.len() - 1) as usize;
        let front = prios.drop_last();
        evaluation_order_exists(front);
        let o = evaluation_order(front);
        let p = prios[n as int];
        lemma_first_above(prios, o, p, 0);
        let pos = first_above(prios, o, p, 0);
        assert forall|q: int| pos <= q < o.len() implies prios[#[trigger] o[q] as int] > p by {
            if q > pos {
                assert(runs_before(front, o[pos] as int, o[q] as int));
            }
        }
        let o2 = o.insert(pos, n);
        assert(o2[pos] == n);
        assert forall|k: int| 0 <= k < o2.len() implies (#[trigger] o2[k]) < prios.len() by {
            if k < pos {
                assert(o2[k] == o[k]);
            } else if k > pos {
                assert(o2[k] == o[k - 1]);
            }
        }
        assert forall|x: usize| x < prios.len() implies #[trigger] o2.contains(x) by {
            if x == n {
                assert(o2[pos] == x);
            } else {
                assert(o.contains(x));
                let k0 = choose|k: int| 0 <= k < o.len() && o[k] == x;
                if k0 < pos {
                    assert(o2[k0] == x);
                } else {
                    assert(o2[k0 + 1] == x);
                }
            }
        }
        assert forall|a: int, b: int| 0 <= a < b < o2.len() implies runs_before(
            prios,
            #[trigger] o2[a] as int,
            #[trigger] o2[b] as int,
        ) by {
            if b < pos {
                assert(o2[a] == o[a] && o2[b] == o[b]);
                assert(runs_before(front, o[a] as int, o[b] as int));
            } else if b == pos {
                assert(o2[a] == o[a]);
                assert(o2[b] == n);
                assert(prios[o[a] as int] <= p);
                assert(o[a] < n);
            } else if a == pos {
                assert(o2[b] == o[b - 1]);
                assert(o2[a] == n);
                assert(prios[o[b - 1] as int] > p);
            } else if a < pos {
                assert(o2[a] == o[a] && o2[b] == o[b - 1]);
                assert(runs_before(front, o[a] as int, o[b - 1] as int));
            } else {
                assert(o2[a] == o[a - 1] && o2[b] == o[b - 1]);
                assert(runs_before(front, o[a - 1] as int, o[b - 1] as int));
            }
        }
        assert(is_evaluation_order(prios, o2));
    }
}

/// Indices of `rules` in evaluation order.
pub fn evaluation_order_of(rules: &Vec<Rule>) -> (ord: Vec<usize>)
    ensures
        is_evaluation_order(priorities(rules@), ord@),
        ord@ == evaluation_order(priorities(rules@)),
{
    let ghost prios = priorities(rules@);
    let mut ord: Vec<usize> = Vec::new();
    let mut i: usize = 0;
    while i < rules.len()
        invariant
            prios == priorities(rules@),
            i <= rules@.len(),
            ord@.len() == i,
            forall|k: int| 0 <= k < ord@.len() ==> (#[trigger] ord@[k]) < i,
            forall|x: usize| x < i ==> #[trigger] ord@.contains(x),
            forall|a: int, b: int|
                0 <= a < b < ord@.len() ==> runs_before(prios, #[trigger] ord@[a] as int, #[trigger] ord@[b] as int),
        decreases rules@.len() - i,
    {
        let p = rules[i].priority;
        let mut pos: usize = 0;
        while pos < ord.len() && rules[ord[pos]].priority <= p
            invariant
                prios == priorities(rules@),
                i < rules@.len(),
                pos <= ord@.len(),
                p == prios[i as int],
                forall|k: int| 0 <= k < ord@.len() ==> (#[trigger] ord@[k]) < i,
                forall|q: int| 0 <= q < pos ==> prios[#[trigger] ord@[q] as int] <= p,
            decreases ord@.len() - pos,
        {
            pos = pos + 1;
        }
        let ghost old_ord = ord@;
        proof {
            // every entry from `pos` on has a higher priority than rule `i`
            assert forall|q: int| pos <= q < old_ord.len() implies prios[#[trigger] old_ord[q] as int] > p by {
                if q > pos {
                    assert(runs_before(prios, old_ord[pos as int] as int, old_ord[q] as int));
                }
            }
        }
        ord.insert(pos, i);
        proof {
            assert forall|k: int| 0 <= k < ord@.len() implies (#[trigger] ord@[k]) < i + 1 by {
                if k < pos {
                    assert(ord@[k] == old_ord[k]);
                } else if k > pos {
                    assert(ord@[k] == old_ord[k - 1]);
                }
            }
            assert forall|x: usize| x < i + 1 implies #[trigger] ord@.contains(x) by {
                if x == i {
                    assert(ord@[pos as int] == x);
                } else {
                    assert(old_ord.contains(x));
                    let k0 = choose|k: int| 0 <= k < old_ord.len() && old_ord[k] == x;
                    if k0 < pos {
                        assert(ord@[k0] == x);
                    } else {
                        assert(ord@[k0 + 1] == x);
                    }
                }
            }
            assert forall|a: int, b: int| 0 <= a < b < ord@.len() implies runs_before(
                prios,
                #[trigger] ord@[a] as int,
                #[trigger] ord@[b] as int,
            ) by {
                if b < pos {
                    assert(ord@[a] == old_ord[a] && ord@[b] == old_ord[b]);
                } else if b == pos {
                    assert(ord@[a] == old_ord[a]);
                } else if a == pos {
                    assert(ord@[b] == old_ord[b - 1]);
                } else if a < pos {
                    assert(ord@[a] == old_ord[a] && ord@[b] == old_ord[b - 1]);
                } else {
                    assert(ord@[a] == old_ord[a - 1] && ord@[b] == old_ord[b - 1]);
                }
            }
        }
        i = i + 1;
    }
    proof {
        assert(is_evaluation_order(prios, ord@));
        evaluation_order_is_unique(prios, ord@, evaluation_order(prios));
    }
    ord
}

} // verus!
